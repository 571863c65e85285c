//! Unevaluated forms, and their compilation into values.

use vstd::prelude::*;
use std::sync::Arc;
use crate::command::{Argument, Command, ExecutionContext, Executor, Printer, StageHandle};
use crate::errors::{
    CrushError, CrushResult, ErrorKind, argument_error, error, fails_with, lookup_error,
    type_error,
};
use crate::scope::{
    Graph, ScopeDataView, ScopeGraph, lemma_rebound_lookup, rebound, resolve, resolve_path,
};
use crate::stream::{InputStream, ValueReceiver, ValueSender, channels, conforms};
use crate::text::{clone_strings, str_eq, strings_view};
use crate::value::{
    ColumnTypeView, Duration, Glob, Row, Time, Value, ValueView, clone_columns, clone_regex,
    columns_view, regex_pattern, rows_view, share, values_view, NANOS_PER_SECOND,
};

verus! {

/// One argument of a command invocation, before evaluation.
#[derive(Debug)]
pub struct ArgumentDefinition {
    pub name: Option<String>,
    pub value: CellDefinition,
}

/// One command invocation of a pipeline: the command and its arguments.
#[derive(Debug)]
pub struct CallDefinition {
    pub command: Arc<Command>,
    pub arguments: Vec<ArgumentDefinition>,
}

/// An ordered sequence of command invocations that form one pipeline.
#[derive(Debug)]
pub struct Job {
    pub commands: Vec<CallDefinition>,
}

/// A body of pipelines, with the scope it was bound to, if any.
#[derive(Debug)]
pub struct Closure {
    pub body: Arc<Vec<Job>>,
    pub env: Option<usize>,
}

/// A list literal.
#[derive(Debug)]
pub struct ListDefinition {
    pub cells: Vec<CellDefinition>,
}

/// An unevaluated form.
#[derive(Debug)]
pub enum CellDefinition {
    Text(String),
    Integer(i128),
    Time(Vec<CellDefinition>),
    Duration(Vec<CellDefinition>),
    Field(Vec<String>),
    Glob(Glob),
    Regex(String, regex::Regex),
    Op(String),
    ClosureDefinition(Closure),
    JobDefintion(Job),
    MaterializedJobDefintion(Job),
    File(String),
    Variable(Vec<String>),
    List(ListDefinition),
    Subscript(Box<CellDefinition>, Box<CellDefinition>),
}

/// The started stages of one pipeline, in stage order.
#[derive(Debug)]
pub struct JobJoinHandle {
    pub handles: Vec<StageHandle>,
}

impl Closure {
    /// Another handle on the same body, bound to the same scope.
    pub fn duplicate(&self) -> (r: Closure)
        ensures
            r == *self,
    {
        Closure { body: share(&self.body), env: self.env }
    }

    /// The closure bound to the scope `env`. The closure holds the scope by
    /// its identity, so what it sees when it runs is what the scope binds
    /// then.
    pub fn with_env(&self, env: usize) -> (r: Closure)
        ensures
            r == (Closure { body: self.body, env: Some(env) }),
    {
        Closure { body: share(&self.body), env: Some(env) }
    }
}

/// What the compilation of a form without effects comes to: a value, or the
/// kind and the message of a failure.
pub type Evaluated = Result<ValueView, (ErrorKind, Seq<char>)>;

/// The result `r` is what `ev` says.
pub open spec fn agrees(r: CrushResult<Value>, ev: Evaluated) -> bool {
    match ev {
        Ok(v) => r matches Ok(out) && out@ == v,
        Err(f) => fails_with(r, f.0, f.1),
    }
}

/// The number of nanoseconds in the unit of time that `t` names.
pub open spec fn unit_nanos(t: Seq<char>) -> Option<int> {
    if t == "nanosecond"@ || t == "nanoseconds"@ {
        Some(1)
    } else if t == "microsecond"@ || t == "microseconds"@ {
        Some(1_000)
    } else if t == "millisecond"@ || t == "milliseconds"@ {
        Some(1_000_000)
    } else if t == "second"@ || t == "seconds"@ {
        Some(1_000_000_000)
    } else if t == "minute"@ || t == "minutes"@ {
        Some(60_000_000_000int)
    } else if t == "hour"@ || t == "hours"@ {
        Some(3_600_000_000_000int)
    } else if t == "day"@ || t == "days"@ {
        Some(86_400_000_000_000int)
    } else if t == "year"@ || t == "years"@ {
        Some(31_536_000_000_000_000int)
    } else {
        None
    }
}

/// The duration of `a` units of the kind that `t` names. A year is 365 days.
pub fn to_duration(a: u64, t: &str) -> (r: CrushResult<Duration>)
    ensures
        match unit_nanos(t@) {
            Some(u) => r matches Ok(d) && d.nanos == a * u,
            None => fails_with(r, ErrorKind::Generic, "Invalid duration"@),
        },
{
    let a: i128 = a as i128;
    if str_eq(t, "nanosecond") || str_eq(t, "nanoseconds") {
        Ok(Duration { nanos: a })
    } else if str_eq(t, "microsecond") || str_eq(t, "microseconds") {
        Ok(Duration { nanos: a * 1_000 })
    } else if str_eq(t, "millisecond") || str_eq(t, "milliseconds") {
        Ok(Duration { nanos: a * 1_000_000 })
    } else if str_eq(t, "second") || str_eq(t, "seconds") {
        Ok(Duration { nanos: a * 1_000_000_000 })
    } else if str_eq(t, "minute") || str_eq(t, "minutes") {
        Ok(Duration { nanos: a * 60_000_000_000 })
    } else if str_eq(t, "hour") || str_eq(t, "hours") {
        Ok(Duration { nanos: a * 3_600_000_000_000 })
    } else if str_eq(t, "day") || str_eq(t, "days") {
        Ok(Duration { nanos: a * 86_400_000_000_000 })
    } else if str_eq(t, "year") || str_eq(t, "years") {
        Ok(Duration { nanos: a * 31_536_000_000_000_000 })
    } else {
        error("Invalid duration")
    }
}

pub open spec fn unknown_format() -> (ErrorKind, Seq<char>) {
    (ErrorKind::Generic, "Unknown duration format"@)
}

pub open spec fn out_of_range() -> (ErrorKind, Seq<char>) {
    (ErrorKind::Generic, "Duration out of range"@)
}

/// The nanoseconds of one chunk of a duration: a count, which is not below
/// zero, and a unit. A chunk that does not fit a duration is out of range.
pub open spec fn chunk_nanos(count: ValueView, unit: ValueView) -> Result<int, (ErrorKind, Seq<char>)> {
    match (count, unit) {
        (ValueView::Integer(a), ValueView::Text(t)) => if 0 <= a {
            match unit_nanos(t) {
                Some(u) => if a * u <= i128::MAX {
                    Ok(a * u)
                } else {
                    Err(out_of_range())
                },
                None => Err((ErrorKind::Generic, "Invalid duration"@)),
            }
        } else {
            Err((ErrorKind::Argument, "Unknown duration format"@))
        },
        _ => Err((ErrorKind::Argument, "Unknown duration format"@)),
    }
}

/// The sum of the first `k` chunks of `vs`, in nanoseconds. The first fault
/// ends the sum: a chunk that is no count and unit, or a sum that does not
/// fit.
pub open spec fn sum_chunks(vs: Seq<ValueView>, k: nat) -> Result<int, (ErrorKind, Seq<char>)>
    decreases k,
{
    if k == 0 {
        Ok(0)
    } else {
        match sum_chunks(vs, (k - 1) as nat) {
            Err(f) => Err(f),
            Ok(acc) => match chunk_nanos(vs[2 * k - 2], vs[2 * k - 1]) {
                Err(f) => Err(f),
                Ok(d) => if acc + d > i128::MAX {
                    Err(out_of_range())
                } else {
                    Ok(acc + d)
                },
            },
        }
    }
}

/// The duration that the compiled arguments of a duration stand for: one
/// integer is a count of seconds; a time, the operator `-` and a time are
/// the interval from the second time to the first, which must not be
/// negative; any other sequence is read as chunks of a count and a unit,
/// which are summed.
pub open spec fn duration_of(vs: Seq<ValueView>) -> Evaluated {
    if vs.len() == 1 && vs[0] is Integer {
        let n = vs[0]->Integer_0;
        if i128::MIN <= n * 1_000_000_000 <= i128::MAX {
            Ok(ValueView::Duration(Duration { nanos: (n * 1_000_000_000) as i128 }))
        } else {
            Err(out_of_range())
        }
    } else if vs.len() == 3 && vs[0] is Time && vs[1] is Op && vs[2] is Time {
        if vs[1]->Op_0 == "-"@ {
            let d = vs[0]->Time_0.instant() - vs[2]->Time_0.instant();
            if d < 0 {
                Err((ErrorKind::Generic, "Negative duration"@))
            } else {
                Ok(ValueView::Duration(Duration { nanos: d as i128 }))
            }
        } else {
            Err((ErrorKind::Generic, "Illegal duration"@))
        }
    } else if vs.len() % 2 == 0 {
        match sum_chunks(vs, vs.len() / 2) {
            Ok(n) => Ok(ValueView::Duration(Duration { nanos: n as i128 })),
            Err(f) => Err(f),
        }
    } else {
        Err(unknown_format())
    }
}

/// The nanoseconds of one chunk of a duration.
fn chunk(count: &Value, unit: &Value) -> (r: CrushResult<i128>)
    ensures
        match chunk_nanos(count@, unit@) {
            Ok(n) => r == Ok::<i128, CrushError>(n as i128) && 0 <= n,
            Err(f) => fails_with(r, f.0, f.1),
        },
{
    match (count, unit) {
        (Value::Integer(a), Value::Text(t)) => {
            if *a < 0 {
                return argument_error("Unknown duration format");
            }
            match to_duration(1, t.as_str()) {
                Ok(d) => {
                    assert(0 <= *a * d.nanos) by (nonlinear_arith)
                        requires
                            0 <= *a,
                            0 < d.nanos,
                    ;
                    match a.checked_mul(d.nanos) {
                        Some(n) => Ok(n),
                        None => error("Duration out of range"),
                    }
                },
                Err(e) => Err(e),
            }
        },
        _ => argument_error("Unknown duration format"),
    }
}

/// The duration that compiled arguments stand for.
pub fn duration_from(values: &Vec<Value>) -> (r: CrushResult<Value>)
    ensures
        agrees(r, duration_of(values_view(values))),
{
    let ghost vs = values_view(values);
    if values.len() == 1 {
        assert(vs[0] == values[0]@);
        if let Value::Integer(n) = &values[0] {
            return match n.checked_mul(NANOS_PER_SECOND) {
                Some(nanos) => Ok(Value::Duration(Duration { nanos })),
                None => error("Duration out of range"),
            };
        }
    }
    if values.len() == 3 {
        assert(vs[0] == values[0]@ && vs[1] == values[1]@ && vs[2] == values[2]@);
        if let (Value::Time(t1), Value::Op(op), Value::Time(t2)) = (&values[0], &values[1], &values[2]) {
            if str_eq(op.as_str(), "-") {
                let d = t1.signed_duration_since(t2);
                if d.nanos < 0 {
                    return error("Negative duration");
                }
                return Ok(Value::Duration(d));
            } else {
                return error("Illegal duration");
            }
        }
    }
    if values.len() % 2 != 0 {
        return error("Unknown duration format");
    }
    let chunks = values.len() / 2;
    let mut total: i128 = 0;
    let mut k: usize = 0;
    while k < chunks
        invariant
            k <= chunks,
            chunks == values.len() / 2,
            values.len() % 2 == 0,
            vs == values_view(values),
            sum_chunks(vs, k as nat) == Ok::<int, (ErrorKind, Seq<char>)>(total as int),
        decreases chunks - k,
    {
        assert(vs[2 * k as int] == values[2 * k as int]@ && vs[2 * k + 1] == values[2 * k + 1]@);
        match chunk(&values[2 * k], &values[2 * k + 1]) {
            Ok(d) => match total.checked_add(d) {
                Some(t) => {
                    total = t;
                },
                None => {
                    proof {
                        lemma_sum_fault_stays(vs, (k + 1) as nat, chunks as nat);
                    }
                    return error("Duration out of range");
                },
            },
            Err(e) => {
                proof {
                    lemma_sum_fault_stays(vs, (k + 1) as nat, chunks as nat);
                }
                return Err(e);
            },
        }
        k += 1;
    }
    Ok(Value::Duration(Duration { nanos: total }))
}

/// The fault that ends a sum of chunks is the fault of the whole sum.
proof fn lemma_sum_fault_stays(vs: Seq<ValueView>, k: nat, n: nat)
    requires
        k <= n,
        sum_chunks(vs, k) is Err,
    ensures
        sum_chunks(vs, n) == sum_chunks(vs, k),
    decreases n - k,
{
    if k < n {
        lemma_sum_fault_stays(vs, k, (n - 1) as nat);
    }
}

/// What the compiled arguments of a time ask for: the one text `now` asks
/// for the current time, and nothing else is understood.
pub open spec fn time_request(vs: Seq<ValueView>) -> Result<(), (ErrorKind, Seq<char>)> {
    if vs.len() == 1 && vs[0] is Text {
        if vs[0]->Text_0 == "now"@ {
            Ok(())
        } else {
            Err((ErrorKind::Generic, "Unknown time"@))
        }
    } else {
        Err(unknown_format())
    }
}

/// Whether the compiled arguments of a time ask for the current time.
pub fn wants_now(values: &Vec<Value>) -> (r: CrushResult<()>)
    ensures
        match time_request(values_view(values)) {
            Ok(_) => r is Ok,
            Err(f) => fails_with(r, f.0, f.1),
        },
{
    if values.len() == 1 {
        assert(values_view(values)[0] == values[0]@);
        if let Value::Text(t) = &values[0] {
            if str_eq(t.as_str(), "now") {
                return Ok(());
            } else {
                return error("Unknown time");
            }
        }
    }
    error("Unknown duration format")
}

/// `Local::now` of chrono: the current time, with the offset of the local
/// time zone. Nothing is claimed of it. chrono gives up where the clock of
/// the system stands before 1970.
#[verifier::external_body]
fn now() -> (t: Time) {
    let t = chrono::Local::now();
    Time { seconds: t.timestamp(), nanos: t.timestamp_subsec_nanos(), offset: t.offset().local_minus_utc() }
}

/// The list that compiled elements make: they must be of one type, and
/// there must be one at least.
pub open spec fn list_of(vs: Seq<ValueView>) -> Evaluated {
    if vs.len() == 0 {
        Err((ErrorKind::Generic, "Empty list literals not supported"@))
    } else if forall|i: int| 0 <= i < vs.len() ==> (#[trigger] vs[i]).value_type() == vs[0].value_type() {
        Ok(ValueView::List(vs[0].value_type(), vs))
    } else {
        Err((ErrorKind::Type, "All elements in list must be of same type"@))
    }
}

/// The typed list of the compiled elements of a list literal.
pub fn make_list(values: Vec<Value>) -> (r: CrushResult<Value>)
    ensures
        agrees(r, list_of(values_view(&values))),
        r matches Ok(v) ==> v@ is List,
{
    let ghost vs = values_view(&values);
    if values.len() == 0 {
        return error("Empty list literals not supported");
    }
    assert(vs[0] == values[0]@);
    let element_type = values[0].value_type();
    let mut i: usize = 1;
    while i < values.len()
        invariant
            1 <= i <= values.len(),
            vs == values_view(&values),
            element_type@ == vs[0].value_type(),
            forall|j: int| 0 <= j < i ==> (#[trigger] vs[j]).value_type() == vs[0].value_type(),
        decreases values.len() - i,
    {
        assert(vs[i as int] == values[i as int]@);
        if !element_type.is(&values[i]) {
            return type_error("All elements in list must be of same type");
        }
        i += 1;
    }
    Ok(Value::List(element_type, values))
}

/// The value of the first entry of a dict whose key is `key`, a plain datum.
pub open spec fn dict_lookup(entries: Seq<(ValueView, ValueView)>, key: ValueView, k: int) -> Option<ValueView>
    decreases entries.len() - k,
{
    if k < 0 || k >= entries.len() {
        None
    } else if entries[k].0.is_scalar() && entries[k].0 == key {
        Some(entries[k].1)
    } else {
        dict_lookup(entries, key, k + 1)
    }
}

/// The cell of the first column named `name`, where the row has such a
/// cell.
pub open spec fn row_lookup(types: Seq<ColumnTypeView>, cells: Seq<ValueView>, name: Seq<char>, k: int) -> Option<ValueView>
    decreases types.len() - k,
{
    if k < 0 || k >= types.len() {
        None
    } else if types[k].name == name {
        if k < cells.len() {
            Some(cells[k])
        } else {
            None
        }
    } else {
        row_lookup(types, cells, name, k + 1)
    }
}

pub open spec fn invalid_subscript() -> (ErrorKind, Seq<char>) {
    (ErrorKind::Generic, "Invalid subscript"@)
}

/// Whether a subscript reads from a stream: its outcome then depends on
/// what the stream delivers.
pub open spec fn reads_stream(container: Evaluated, index: Evaluated) -> bool {
    container matches Ok(ValueView::TableStream(_)) && index matches Ok(ValueView::Integer(_))
}

/// What a subscript that reads no stream comes to: the element of a list at
/// an index, the value of a dict at a key, the binding of a name in a scope,
/// or the cell of a row in a named column. Any other pairing of container
/// and index is refused, and so is a container or an index that failed to
/// compile.
pub open spec fn subscript_of(g: Graph, container: Evaluated, index: Evaluated) -> Evaluated {
    match (container, index) {
        (Ok(ValueView::List(_, cells)), Ok(ValueView::Integer(i))) => if 0 <= i < cells.len() {
            Ok(cells[i])
        } else {
            Err((ErrorKind::Generic, "Index out of bounds"@))
        },
        (Ok(ValueView::Dict(_, _, entries)), Ok(key)) => match dict_lookup(entries, key, 0) {
            Some(v) => Ok(v),
            None => Err(invalid_subscript()),
        },
        (Ok(ValueView::Scope(s)), Ok(ValueView::Text(name))) => if s < g.len() {
            match resolve(g, s as int, name) {
                Some(v) => Ok(v),
                None => Err(invalid_subscript()),
            }
        } else {
            Err(invalid_subscript())
        },
        (Ok(ValueView::Row(types, cells)), Ok(ValueView::Text(name))) => match row_lookup(types, cells, name, 0) {
            Some(v) => Ok(v),
            None => Err(invalid_subscript()),
        },
        _ => Err((ErrorKind::Generic, "Expected a list variable"@)),
    }
}

/// The result of a compilation as the outcome of a form without effects.
pub open spec fn outcome(r: CrushResult<Value>) -> Evaluated {
    match r {
        Ok(v) => Ok(v@),
        Err(e) => Err((e.kind, e.message@)),
    }
}

/// The subscript of a compiled container at a compiled index. Where the
/// container is a stream and the index an integer, the rows before the
/// index are read from the stream and dropped, and the row at the index
/// comes back with the types of the stream.
#[verifier::loop_isolation(false)]
pub fn subscript(
    graph: &ScopeGraph,
    container: CrushResult<Value>,
    index: CrushResult<Value>,
) -> (r: CrushResult<Value>)
    requires
        graph.wf(),
    ensures
        r is Ok ==> container is Ok && index is Ok,
        !reads_stream(outcome(container), outcome(index)) ==> agrees(
            r,
            subscript_of(graph@, outcome(container), outcome(index)),
        ),
        reads_stream(outcome(container), outcome(index)) ==> match r {
            Ok(v) => v@ matches ValueView::Row(types, cells) && types == container->Ok_0@->TableStream_0 && conforms(
                types,
                cells,
            ),
            Err(e) => e.kind == ErrorKind::Type || fails_with(r, ErrorKind::Generic, "Index out of bounds"@),
        },
{
    match (container, index) {
        (Ok(Value::List(_, cells)), Ok(Value::Integer(i))) => {
            if 0 <= i && i < cells.len() as i128 {
                assert(values_view(&cells)[i as int] == cells[i as int]@);
                Ok(cells[i as usize].duplicate())
            } else {
                error("Index out of bounds")
            }
        },
        (Ok(Value::Dict(_, _, entries)), Ok(key)) => {
            let ghost es = crate::value::entries_view(&entries);
            let mut k: usize = 0;
            while k < entries.len()
                invariant
                    k <= entries.len(),
                    es == crate::value::entries_view(&entries),
                    dict_lookup(es, key@, 0) == dict_lookup(es, key@, k as int),
                decreases entries.len() - k,
            {
                assert(es[k as int] == (entries[k as int].0@, entries[k as int].1@));
                if entries[k].0.scalar_eq(&key) {
                    return Ok(entries[k].1.duplicate());
                }
                k += 1;
            }
            error("Invalid subscript")
        },
        (Ok(Value::Scope(s)), Ok(Value::Text(name))) => {
            if graph.contains(s) {
                match graph.get_str(s, name.as_str()) {
                    Some(v) => Ok(v),
                    None => error("Invalid subscript"),
                }
            } else {
                error("Invalid subscript")
            }
        },
        (Ok(Value::Row(types, row)), Ok(Value::Text(name))) => {
            let ghost ts = columns_view(&types);
            let mut k: usize = 0;
            while k < types.len()
                invariant
                    k <= types.len(),
                    ts == columns_view(&types),
                    row_lookup(ts, row@, name@, 0) == row_lookup(ts, row@, name@, k as int),
                decreases types.len() - k,
            {
                assert(ts[k as int] == types[k as int]@);
                if str_eq(types[k].name.as_str(), name.as_str()) {
                    if k < row.cells.len() {
                        assert(row@[k as int] == row.cells[k as int]@);
                        return Ok(row.cells[k].duplicate());
                    } else {
                        return error("Invalid subscript");
                    }
                }
                k += 1;
            }
            error("Invalid subscript")
        },
        (Ok(Value::TableStream(stream)), Ok(Value::Integer(i))) => {
            match stream.get(i) {
                Ok(row) => Ok(Value::Row(clone_columns(stream.types()), row)),
                Err(e) => Err(e),
            }
        },
        _ => error("Expected a list variable"),
    }
}


/// What the first `k` forms of `cells` compile to, where none of them has an
/// effect: their values in order, or the first failure.
pub open spec fn evaluate_all(cells: &Vec<CellDefinition>, g: Graph, env: int, k: nat) -> Result<Seq<ValueView>, (ErrorKind, Seq<char>)>
    decreases cells, k,
{
    if k == 0 || k > cells.len() {
        Ok(Seq::empty())
    } else {
        match evaluate_all(cells, g, env, (k - 1) as nat) {
            Err(f) => Err(f),
            Ok(vs) => match evaluate(&cells[k - 1], g, env) {
                Err(f) => Err(f),
                Ok(v) => Ok(vs.push(v)),
            },
        }
    }
}

/// What a form without effects compiles to in the scope `env` of the graph
/// `g`.
pub open spec fn evaluate(def: &CellDefinition, g: Graph, env: int) -> Evaluated
    decreases def, 0nat,
{
    match def {
        CellDefinition::Text(s) => Ok(ValueView::Text(s@)),
        CellDefinition::Integer(i) => Ok(ValueView::Integer(*i as int)),
        CellDefinition::Field(f) => Ok(ValueView::Field(strings_view(f))),
        CellDefinition::Glob(p) => Ok(ValueView::Glob(p.pattern@)),
        CellDefinition::Regex(s, r) => Ok(ValueView::Regex(s@, regex_pattern(*r))),
        CellDefinition::Op(s) => Ok(ValueView::Op(s@)),
        CellDefinition::File(p) => Ok(ValueView::File(p@)),
        CellDefinition::ClosureDefinition(c) => Ok(ValueView::Closure(Closure { body: c.body, env: Some(env as usize) })),
        CellDefinition::Variable(path) => match resolve_path(g, env, strings_view(path), 0) {
            Some(v) => Ok(v),
            None => Err((ErrorKind::Lookup, "Unknown variable"@)),
        },
        CellDefinition::List(l) => match evaluate_all(&l.cells, g, env, l.cells.len() as nat) {
            Err(f) => Err(f),
            Ok(vs) => list_of(vs),
        },
        CellDefinition::Subscript(c, i) => subscript_of(g, evaluate(c, g, env), evaluate(i, g, env)),
        CellDefinition::Duration(cells) => match evaluate_all(cells, g, env, cells.len() as nat) {
            Err(f) => Err(f),
            Ok(vs) => duration_of(vs),
        },
        // The forms below have effects; they are not evaluated here.
        CellDefinition::Time(_) => Err(unknown_format()),
        CellDefinition::JobDefintion(_) => Err(unknown_format()),
        CellDefinition::MaterializedJobDefintion(_) => Err(unknown_format()),
    }
}

/// Whether the first `k` forms of `cells` are without effects.
pub open spec fn all_pure(cells: &Vec<CellDefinition>, g: Graph, env: int, k: nat) -> bool
    decreases cells, k,
{
    if k == 0 || k > cells.len() {
        true
    } else {
        all_pure(cells, g, env, (k - 1) as nat) && is_pure(&cells[k - 1], g, env)
    }
}

/// Whether the compilation of a form is without effects: it asks for no
/// time, starts no pipeline and reads no stream. What such a form compiles
/// to depends on the form and the scope alone.
pub open spec fn is_pure(def: &CellDefinition, g: Graph, env: int) -> bool
    decreases def, 0nat,
{
    match def {
        CellDefinition::Time(_) => false,
        CellDefinition::JobDefintion(_) => false,
        CellDefinition::MaterializedJobDefintion(_) => false,
        CellDefinition::List(l) => all_pure(&l.cells, g, env, l.cells.len() as nat),
        CellDefinition::Duration(cells) => all_pure(cells, g, env, cells.len() as nat),
        CellDefinition::Subscript(c, i) => is_pure(c, g, env) && is_pure(i, g, env) && !reads_stream(
            evaluate(c, g, env),
            evaluate(i, g, env),
        ),
        _ => true,
    }
}

/// The number of pipelines among the first `k` of the forms `cells` and
/// inside them.
pub open spec fn pipelines_in_cells(cells: &Vec<CellDefinition>, k: nat) -> nat
    decreases cells, k,
{
    if k == 0 || k > cells.len() {
        0
    } else {
        pipelines_in_cells(cells, (k - 1) as nat) + pipelines_in(&cells[k - 1])
    }
}

/// The number of pipelines inside the first `k` of the arguments.
pub open spec fn pipelines_in_arguments(arguments: &Vec<ArgumentDefinition>, k: nat) -> nat
    decreases arguments, k,
{
    if k == 0 || k > arguments.len() {
        0
    } else {
        pipelines_in_arguments(arguments, (k - 1) as nat) + pipelines_in(&arguments[k - 1].value)
    }
}

/// The number of pipelines inside the arguments of the first `k` stages of
/// a pipeline.
pub open spec fn pipelines_in_job(job: &Job, k: nat) -> nat
    decreases job, k,
{
    if k == 0 || k > job.commands.len() {
        0
    } else {
        pipelines_in_job(job, (k - 1) as nat) + pipelines_in_arguments(
            &job.commands[k - 1].arguments,
            job.commands[k - 1].arguments.len() as nat,
        )
    }
}

/// The number of pipelines that the compilation of a form starts when it
/// succeeds: the form itself where it is a pipeline, and the pipelines
/// inside its parts and inside the arguments of its stages.
pub open spec fn pipelines_in(def: &CellDefinition) -> nat
    decreases def, 0nat,
{
    match def {
        CellDefinition::Time(cells) => pipelines_in_cells(cells, cells.len() as nat),
        CellDefinition::Duration(cells) => pipelines_in_cells(cells, cells.len() as nat),
        CellDefinition::List(l) => pipelines_in_cells(&l.cells, l.cells.len() as nat),
        CellDefinition::Subscript(c, i) => pipelines_in(c) + pipelines_in(i),
        CellDefinition::JobDefintion(job) => pipelines_in_job(job, job.commands.len() as nat) + 1,
        CellDefinition::MaterializedJobDefintion(job) => pipelines_in_job(job, job.commands.len() as nat) + 1,
        _ => 0,
    }
}

/// The outcome of the compilation of forms: the values or the failure.
pub open spec fn agree_all(r: CrushResult<Vec<Value>>, ev: Result<Seq<ValueView>, (ErrorKind, Seq<char>)>) -> bool {
    match ev {
        Ok(vs) => r matches Ok(out) && values_view(&out) == vs,
        Err(f) => fails_with(r, f.0, f.1),
    }
}

/// The first failure among the outcomes of the stages of a pipeline, in
/// stage order; success where there is none.
pub open spec fn first_failure(outcomes: Seq<CrushResult<()>>, k: int) -> CrushResult<()>
    decreases outcomes.len() - k,
{
    if k < 0 || k >= outcomes.len() {
        Ok(())
    } else if outcomes[k] is Err {
        outcomes[k]
    } else {
        first_failure(outcomes, k + 1)
    }
}

/// What a pipeline comes to when its stages have come to `outcomes`: the
/// first failure in stage order.
pub fn first_error(outcomes: Vec<CrushResult<()>>) -> (r: CrushResult<()>)
    ensures
        r == first_failure(outcomes@, 0),
{
    let mut outcomes = outcomes;
    let ghost all = outcomes@;
    let mut first: CrushResult<()> = Ok(());
    // The outcomes are taken from the end, so that the last failure kept is
    // the first in stage order.
    while outcomes.len() > 0
        invariant
            outcomes.len() <= all.len(),
            outcomes@ == all.take(outcomes.len() as int),
            first == first_failure(all, outcomes.len() as int),
        decreases outcomes.len(),
    {
        let ghost n = outcomes.len();
        let last = outcomes.pop().unwrap();
        assert(last == all[n - 1]);
        assert(outcomes@ =~= all.take(n - 1));
        match last {
            Err(e) => {
                first = Err(e);
            },
            Ok(_) => {},
        }
    }
    first
}

impl JobJoinHandle {
    /// Waits for every stage, in stage order, and gives the first failure.
    /// A stage that failed does not keep the later ones from being waited
    /// for. Where there is no stage there is no failure.
    pub fn join<E: Executor>(self, executor: &mut E) -> (r: CrushResult<()>)
        ensures
            self.handles.len() == 0 ==> r is Ok,
    {
        let mut outcomes: Vec<CrushResult<()>> = Vec::new();
        let mut k: usize = 0;
        while k < self.handles.len()
            invariant
                k <= self.handles.len(),
                outcomes.len() == k,
            decreases self.handles.len() - k,
        {
            outcomes.push(executor.join(self.handles[k]));
            k += 1;
        }
        first_error(outcomes)
    }
}

/// What gathering the rows of a stream comes to when `rows` were gathered
/// and `received` came back: a row is kept as the last, and there may be
/// more; a failure ends the gathering, and the rows stay as they are.
pub fn gathered(rows: Vec<Row>, received: CrushResult<Row>) -> (r: (Vec<Row>, bool))
    ensures
        match received {
            Ok(row) => r.0@ == rows@.push(row) && r.1,
            Err(_) => r.0@ == rows@ && !r.1,
        },
{
    let mut rows = rows;
    match received {
        Ok(row) => {
            rows.push(row);
            (rows, true)
        },
        Err(_) => (rows, false),
    }
}

/// Reads a stream to its end, or to the first row that fails, and gives the
/// rows read, in the order in which they came, as a table.
pub fn materialize(stream: InputStream) -> (r: Value)
    ensures
        r@ matches ValueView::Table(types, rows) && types == stream.schema() && forall|i: int|
            0 <= i < rows.len() ==> conforms(types, #[trigger] rows[i]),
{
    let mut rows: Vec<Row> = Vec::new();
    while rows.len() < usize::MAX
        invariant
            forall|i: int| 0 <= i < rows.len() ==> conforms(stream.schema(), #[trigger] rows[i]@),
        decreases usize::MAX - rows.len(),
    {
        let received = stream.recv();
        let (next, more) = gathered(rows, received);
        rows = next;
        if !more {
            break ;
        }
    }
    let types = clone_columns(stream.types());
    assert forall|i: int| 0 <= i < rows_view(&rows).len() implies conforms(columns_view(&types), #[trigger] rows_view(&rows)[i]) by {
        assert(rows_view(&rows)[i] == rows[i]@);
    }
    Value::Table(types, rows)
}

/// Compiles forms in order, up to the first that fails.
fn compile_all<E: Executor>(
    cells: &Vec<CellDefinition>,
    executor: &mut E,
    dependencies: &mut Vec<JobJoinHandle>,
    graph: &ScopeGraph,
    env: usize,
    printer: &Printer,
) -> (r: CrushResult<Vec<Value>>)
    requires
        graph.wf(),
        env < graph@.len(),
    ensures
        old(dependencies)@.is_prefix_of(final(dependencies)@),
        r is Ok ==> final(dependencies)@.len() == old(dependencies)@.len() + pipelines_in_cells(
            cells,
            cells.len() as nat,
        ),
        all_pure(cells, graph@, env as int, cells.len() as nat) ==> final(dependencies)@ == old(dependencies)@ && agree_all(
            r,
            evaluate_all(cells, graph@, env as int, cells.len() as nat),
        ),
    decreases cells, 0nat,
{
    let ghost g = graph@;
    let ghost d0 = dependencies@;
    let mut out: Vec<Value> = Vec::new();
    let mut k: usize = 0;
    assert(values_view(&out) =~= Seq::empty());
    while k < cells.len()
        invariant
            graph.wf(),
            env < graph@.len(),
            g == graph@,
            k <= cells.len(),
            d0 == old(dependencies)@,
            d0.is_prefix_of(dependencies@),
            dependencies@.len() == d0.len() + pipelines_in_cells(cells, k as nat),
            all_pure(cells, g, env as int, k as nat) ==> dependencies@ == d0 && evaluate_all(cells, g, env as int, k as nat)
                == Ok::<Seq<ValueView>, (ErrorKind, Seq<char>)>(values_view(&out)),
        decreases cells.len() - k,
    {
        let ghost before = values_view(&out);
        match cells[k].compile(executor, dependencies, graph, env, printer) {
            Ok(v) => {
                out.push(v);
                assert(values_view(&out) =~= before.push(v@));
            },
            Err(e) => {
                proof {
                    if all_pure(cells, g, env as int, cells.len() as nat) {
                        lemma_pure_prefix(cells, g, env as int, (k + 1) as nat, cells.len() as nat);
                        lemma_failure_stays(cells, g, env as int, (k + 1) as nat, cells.len() as nat);
                    }
                }
                return Err(e);
            },
        }
        proof {
            if all_pure(cells, g, env as int, (k + 1) as nat) {
                assert(all_pure(cells, g, env as int, k as nat));
            }
        }
        k += 1;
    }
    Ok(out)
}

/// Where the first `n` forms are without effects, so are the first `k`.
proof fn lemma_pure_prefix(cells: &Vec<CellDefinition>, g: Graph, env: int, k: nat, n: nat)
    requires
        k <= n <= cells.len(),
        all_pure(cells, g, env, n),
    ensures
        all_pure(cells, g, env, k),
    decreases n - k,
{
    if k < n {
        lemma_pure_prefix(cells, g, env, k, (n - 1) as nat);
    }
}

/// The first failure among forms is the failure of all of them.
proof fn lemma_failure_stays(cells: &Vec<CellDefinition>, g: Graph, env: int, k: nat, n: nat)
    requires
        k <= n <= cells.len(),
        evaluate_all(cells, g, env, k) is Err,
    ensures
        evaluate_all(cells, g, env, n) == evaluate_all(cells, g, env, k),
    decreases n - k,
{
    if k < n {
        lemma_failure_stays(cells, g, env, k, (n - 1) as nat);
    }
}

/// Compiles the arguments of a duration and makes the duration of them.
fn compile_duration_mode<E: Executor>(
    cells: &Vec<CellDefinition>,
    executor: &mut E,
    dependencies: &mut Vec<JobJoinHandle>,
    graph: &ScopeGraph,
    env: usize,
    printer: &Printer,
) -> (r: CrushResult<Value>)
    requires
        graph.wf(),
        env < graph@.len(),
    ensures
        old(dependencies)@.is_prefix_of(final(dependencies)@),
        r is Ok ==> final(dependencies)@.len() == old(dependencies)@.len() + pipelines_in_cells(
            cells,
            cells.len() as nat,
        ),
        r matches Ok(v) ==> v@ is Duration,
        all_pure(cells, graph@, env as int, cells.len() as nat) ==> final(dependencies)@ == old(dependencies)@ && agrees(
            r,
            match evaluate_all(cells, graph@, env as int, cells.len() as nat) {
                Err(f) => Err(f),
                Ok(vs) => duration_of(vs),
            },
        ),
    decreases cells, 1nat,
{
    match compile_all(cells, executor, dependencies, graph, env, printer) {
        Ok(v) => duration_from(&v),
        Err(e) => Err(e),
    }
}

/// Compiles the arguments of a time and, where they ask for it, takes the
/// current time.
fn compile_time_mode<E: Executor>(
    cells: &Vec<CellDefinition>,
    executor: &mut E,
    dependencies: &mut Vec<JobJoinHandle>,
    graph: &ScopeGraph,
    env: usize,
    printer: &Printer,
) -> (r: CrushResult<Value>)
    requires
        graph.wf(),
        env < graph@.len(),
    ensures
        old(dependencies)@.is_prefix_of(final(dependencies)@),
        r is Ok ==> final(dependencies)@.len() == old(dependencies)@.len() + pipelines_in_cells(
            cells,
            cells.len() as nat,
        ),
        r matches Ok(v) ==> v@ is Time,
        all_pure(cells, graph@, env as int, cells.len() as nat) ==> final(dependencies)@ == old(dependencies)@ && match evaluate_all(
            cells,
            graph@,
            env as int,
            cells.len() as nat,
        ) {
            Err(f) => fails_with(r, f.0, f.1),
            Ok(vs) => match time_request(vs) {
                Ok(_) => r is Ok,
                Err(f) => fails_with(r, f.0, f.1),
            },
        },
    decreases cells, 1nat,
{
    let v = match compile_all(cells, executor, dependencies, graph, env, printer) {
        Ok(v) => v,
        Err(e) => {
            return Err(e);
        },
    };
    match wants_now(&v) {
        Ok(_) => Ok(Value::Time(now())),
        Err(e) => Err(e),
    }
}

/// The name of an argument, as characters.
pub open spec fn name_view(name: Option<String>) -> Option<Seq<char>> {
    match name {
        Some(n) => Some(n@),
        None => None,
    }
}

/// The names and the values that arguments stand for.
pub open spec fn arguments_view(arguments: &Vec<Argument>) -> Seq<(Option<Seq<char>>, ValueView)> {
    Seq::new(arguments.len() as nat, |i: int| (name_view(arguments[i].name), arguments[i].value@))
}

/// Whether the first `k` argument forms are without effects.
pub open spec fn pure_arguments(arguments: &Vec<ArgumentDefinition>, g: Graph, env: int, k: nat) -> bool
    decreases k,
{
    if k == 0 || k > arguments.len() {
        true
    } else {
        pure_arguments(arguments, g, env, (k - 1) as nat) && is_pure(&arguments[k - 1].value, g, env)
    }
}

/// What the first `k` argument forms compile to, where none of them has an
/// effect: each value under the name of its form, in order, or the first
/// failure.
pub open spec fn evaluate_arguments(arguments: &Vec<ArgumentDefinition>, g: Graph, env: int, k: nat) -> Result<
    Seq<(Option<Seq<char>>, ValueView)>,
    (ErrorKind, Seq<char>),
>
    decreases k,
{
    if k == 0 || k > arguments.len() {
        Ok(Seq::empty())
    } else {
        match evaluate_arguments(arguments, g, env, (k - 1) as nat) {
            Err(f) => Err(f),
            Ok(vs) => match evaluate(&arguments[k - 1].value, g, env) {
                Err(f) => Err(f),
                Ok(v) => Ok(vs.push((name_view(arguments[k - 1].name), v))),
            },
        }
    }
}

/// Whether the arguments `r` are what `ev` says.
pub open spec fn agree_arguments(
    r: CrushResult<Vec<Argument>>,
    ev: Result<Seq<(Option<Seq<char>>, ValueView)>, (ErrorKind, Seq<char>)>,
) -> bool {
    match ev {
        Ok(vs) => r matches Ok(out) && arguments_view(&out) == vs,
        Err(f) => fails_with(r, f.0, f.1),
    }
}

/// Where the first `n` argument forms are without effects, so are the
/// first `k`.
proof fn lemma_pure_arguments_prefix(arguments: &Vec<ArgumentDefinition>, g: Graph, env: int, k: nat, n: nat)
    requires
        k <= n <= arguments.len(),
        pure_arguments(arguments, g, env, n),
    ensures
        pure_arguments(arguments, g, env, k),
    decreases n - k,
{
    if k < n {
        lemma_pure_arguments_prefix(arguments, g, env, k, (n - 1) as nat);
    }
}

/// The first failure among argument forms is the failure of all of them.
proof fn lemma_argument_failure_stays(arguments: &Vec<ArgumentDefinition>, g: Graph, env: int, k: nat, n: nat)
    requires
        k <= n <= arguments.len(),
        evaluate_arguments(arguments, g, env, k) is Err,
    ensures
        evaluate_arguments(arguments, g, env, n) == evaluate_arguments(arguments, g, env, k),
    decreases n - k,
{
    if k < n {
        lemma_argument_failure_stays(arguments, g, env, k, (n - 1) as nat);
    }
}

/// Compiles the arguments of one command invocation, in order, up to the
/// first that fails. Each value keeps the name of its form.
fn compile_arguments<E: Executor>(
    arguments: &Vec<ArgumentDefinition>,
    executor: &mut E,
    dependencies: &mut Vec<JobJoinHandle>,
    graph: &ScopeGraph,
    env: usize,
    printer: &Printer,
) -> (r: CrushResult<Vec<Argument>>)
    requires
        graph.wf(),
        env < graph@.len(),
    ensures
        old(dependencies)@.is_prefix_of(final(dependencies)@),
        r matches Ok(out) ==> out.len() == arguments.len(),
        r is Ok ==> final(dependencies)@.len() == old(dependencies)@.len() + pipelines_in_arguments(
            arguments,
            arguments.len() as nat,
        ),
        pure_arguments(arguments, graph@, env as int, arguments.len() as nat) ==> final(dependencies)@ == old(dependencies)@ && agree_arguments(r, evaluate_arguments(arguments, graph@, env as int, arguments.len() as nat)),
    decreases arguments, 0nat,
{
    let ghost g = graph@;
    let ghost d0 = dependencies@;
    let mut out: Vec<Argument> = Vec::new();
    let mut k: usize = 0;
    assert(arguments_view(&out) =~= Seq::empty());
    while k < arguments.len()
        invariant
            graph.wf(),
            env < graph@.len(),
            g == graph@,
            k <= arguments.len(),
            out.len() == k,
            d0 == old(dependencies)@,
            d0.is_prefix_of(dependencies@),
            dependencies@.len() == d0.len() + pipelines_in_arguments(arguments, k as nat),
            pure_arguments(arguments, g, env as int, k as nat) ==> dependencies@ == d0 && evaluate_arguments(
                arguments,
                g,
                env as int,
                k as nat,
            ) == Ok::<Seq<(Option<Seq<char>>, ValueView)>, (ErrorKind, Seq<char>)>(arguments_view(&out)),
        decreases arguments.len() - k,
    {
        let ghost before = arguments_view(&out);
        let name = match &arguments[k].name {
            Some(n) => Some(n.clone()),
            None => None,
        };
        assert(name_view(name) == name_view(arguments[k as int].name));
        match arguments[k].value.compile(executor, dependencies, graph, env, printer) {
            Ok(value) => {
                out.push(Argument { name, value });
                assert(arguments_view(&out) =~= before.push((name_view(name), value@)));
            },
            Err(e) => {
                proof {
                    if pure_arguments(arguments, g, env as int, arguments.len() as nat) {
                        lemma_pure_arguments_prefix(arguments, g, env as int, (k + 1) as nat, arguments.len() as nat);
                        lemma_argument_failure_stays(arguments, g, env as int, (k + 1) as nat, arguments.len() as nat);
                    }
                }
                return Err(e);
            },
        }
        proof {
            if pure_arguments(arguments, g, env as int, (k + 1) as nat) {
                assert(pure_arguments(arguments, g, env as int, k as nat));
            }
        }
        k += 1;
    }
    Ok(out)
}

impl Job {
    /// Whether the arguments of stage `k` are without effects and one of
    /// them fails to compile.
    pub open spec fn stage_fails(&self, k: int, g: Graph, env: int) -> bool {
        &&& pure_arguments(&self.commands[k].arguments, g, env, self.commands[k].arguments.len() as nat)
        &&& evaluate_arguments(
            &self.commands[k].arguments,
            g,
            env,
            self.commands[k].arguments.len() as nat,
        ) is Err
    }

    /// The failure of the arguments of stage `k`.
    pub open spec fn stage_failure(&self, k: int, g: Graph, env: int) -> (ErrorKind, Seq<char>) {
        evaluate_arguments(&self.commands[k].arguments, g, env, self.commands[k].arguments.len() as nat)->Err_0
    }

    /// Whether the arguments of the first stage are without effects and
    /// one of them fails to compile.
    pub open spec fn first_stage_fails(&self, g: Graph, env: int) -> bool {
        self.stage_fails(0, g, env)
    }

    /// The failure of the arguments of the first stage.
    pub open spec fn first_failure(&self, g: Graph, env: int) -> (ErrorKind, Seq<char>) {
        self.stage_failure(0, g, env)
    }

    /// The context of a stage: its arguments, its two channels, the scope
    /// it runs in, no receiver, and a handle on the printer.
    pub fn stage_context(
        arguments: Vec<Argument>,
        input: ValueReceiver,
        output: ValueSender,
        env: usize,
        printer: &Printer,
    ) -> (r: ExecutionContext)
        ensures
            r.arguments == arguments,
            r.input == input,
            r.output == output,
            r.env == env,
            r.this is None,
            r.printer.channel() == printer.channel(),
    {
        ExecutionContext { input, output, arguments, env, this: None, printer: printer.duplicate() }
    }

    /// What starting a stage comes to when the stages `handles` were started
    /// before it and `outcome` came back: a handle is kept as the last; a
    /// failure ends the pipeline, and the stages that were started are added
    /// to the dependencies as one pipeline, so that they can be waited for.
    pub fn started(
        handles: Vec<StageHandle>,
        outcome: CrushResult<StageHandle>,
        dependencies: &mut Vec<JobJoinHandle>,
    ) -> (r: CrushResult<Vec<StageHandle>>)
        ensures
            match outcome {
                Ok(h) => r matches Ok(v) && v@ == handles@.push(h) && final(dependencies)@ == old(dependencies)@,
                Err(e) => r == Err::<Vec<StageHandle>, CrushError>(e) && final(dependencies)@.len() == old(dependencies)@.len() + 1 && old(dependencies)@.is_prefix_of(final(dependencies)@) && final(dependencies)@.last().handles@ == handles@,
            },
    {
        let mut handles = handles;
        match outcome {
            Ok(h) => {
                handles.push(h);
                Ok(handles)
            },
            Err(e) => {
                dependencies.push(JobJoinHandle { handles });
                Err(e)
            },
        }
    }

    /// Starts the stages of the pipeline. Stage 0 reads from `first_input`,
    /// the last stage writes to `last_output`, and every other output is
    /// wired to the input of the next stage by a value channel of its own.
    /// What comes back names every stage, in stage order; what is done with
    /// the answer of the executor for each stage is what `started` says, and
    /// what the executor is handed is what `stage_context` says. A pipeline
    /// without stages starts nothing and succeeds. The arguments of a stage
    /// are compiled before it is started, and a stage whose arguments fail
    /// to compile is not started. Where a stage cannot be started, the
    /// stages that were started before it are added to the dependencies as
    /// one pipeline, so that they can be waited for.
    pub fn spawn_and_execute<E: Executor>(
        &self,
        executor: &mut E,
        dependencies: &mut Vec<JobJoinHandle>,
        graph: &ScopeGraph,
        env: usize,
        printer: &Printer,
        first_input: ValueReceiver,
        last_output: ValueSender,
    ) -> (r: CrushResult<JobJoinHandle>)
        requires
            graph.wf(),
            env < graph@.len(),
        ensures
            old(dependencies)@.is_prefix_of(final(dependencies)@),
            r matches Ok(h) ==> h.handles.len() == self.commands.len(),
            r is Ok ==> final(dependencies)@.len() == old(dependencies)@.len() + pipelines_in_job(
                self,
                self.commands.len() as nat,
            ),
            r is Ok ==> forall|k: int| 0 <= k < self.commands.len() ==> !#[trigger] self.stage_fails(k, graph@, env as int),
            self.commands.len() == 0 ==> r is Ok && final(dependencies)@ == old(dependencies)@,
            r is Err ==> final(dependencies)@.len() > old(dependencies)@.len() && final(dependencies)@.last().handles.len() < self.commands.len(),
            self.commands.len() > 0 ==> self.first_stage_fails(graph@, env as int) ==> fails_with(
                r,
                self.first_failure(graph@, env as int).0,
                self.first_failure(graph@, env as int).1,
            ) && final(dependencies)@.len() == old(dependencies)@.len() + 1 && final(dependencies)@.last().handles.len() == 0,
        decreases self, 1nat,
    {
        let ghost d0 = dependencies@;
        let n = self.commands.len();
        let mut handles: Vec<StageHandle> = Vec::new();
        if n == 0 {
            return Ok(JobJoinHandle { handles });
        }
        let mut input = first_input;
        let mut k: usize = 0;
        while k + 1 < n
            invariant
                graph.wf(),
                env < graph@.len(),
                n == self.commands.len(),
                k < n,
                handles.len() == k,
                d0 == old(dependencies)@,
                d0.is_prefix_of(dependencies@),
                k == 0 ==> dependencies@ == d0,
                dependencies@.len() == d0.len() + pipelines_in_job(self, k as nat),
                forall|j: int| 0 <= j < k ==> !#[trigger] self.stage_fails(j, graph@, env as int),
            decreases n - k,
        {
            let (output, next_input) = channels();
            let outcome = self.start(k, executor, dependencies, graph, env, printer, input, output);
            match Job::started(handles, outcome, dependencies) {
                Ok(v) => {
                    handles = v;
                },
                Err(e) => {
                    return Err(e);
                },
            }
            input = next_input;
            k += 1;
        }
        let outcome = self.start(k, executor, dependencies, graph, env, printer, input, last_output);
        match Job::started(handles, outcome, dependencies) {
            Ok(v) => Ok(JobJoinHandle { handles: v }),
            Err(e) => Err(e),
        }
    }

    /// Starts stage `k` between the given channels: its arguments are
    /// compiled, and the command is handed to the executor with them, the
    /// channels, the scope and a handle on the printer. A stage whose
    /// arguments fail to compile is not started.
    fn start<E: Executor>(
        &self,
        k: usize,
        executor: &mut E,
        dependencies: &mut Vec<JobJoinHandle>,
        graph: &ScopeGraph,
        env: usize,
        printer: &Printer,
        input: ValueReceiver,
        output: ValueSender,
    ) -> (r: CrushResult<StageHandle>)
        requires
            graph.wf(),
            env < graph@.len(),
            k < self.commands.len(),
        ensures
            old(dependencies)@.is_prefix_of(final(dependencies)@),
            pure_arguments(
                &self.commands[k as int].arguments,
                graph@,
                env as int,
                self.commands[k as int].arguments.len() as nat,
            ) ==> final(dependencies)@ == old(dependencies)@,
            self.stage_fails(k as int, graph@, env as int) ==> fails_with(
                r,
                self.stage_failure(k as int, graph@, env as int).0,
                self.stage_failure(k as int, graph@, env as int).1,
            ),
            r is Ok ==> !self.stage_fails(k as int, graph@, env as int),
            r is Ok ==> final(dependencies)@.len() == old(dependencies)@.len() + pipelines_in_arguments(
                &self.commands[k as int].arguments,
                self.commands[k as int].arguments.len() as nat,
            ),
        decreases self, 0nat,
    {
        let call = &self.commands[k];
        let arguments = match compile_arguments(&call.arguments, executor, dependencies, graph, env, printer) {
            Ok(a) => a,
            Err(e) => {
                return Err(e);
            },
        };
        executor.spawn(&call.command, Job::stage_context(arguments, input, output, env, printer))
    }
}

/// Starts a pipeline between two value channels of its own and takes the
/// stream that its last stage hands over. The pipeline is added to the
/// dependencies before the stream is waited for, so where a stream comes
/// back, the last of the dependencies names every stage of the pipeline.
fn run_job<E: Executor>(
    job: &Job,
    executor: &mut E,
    dependencies: &mut Vec<JobJoinHandle>,
    graph: &ScopeGraph,
    env: usize,
    printer: &Printer,
) -> (r: CrushResult<InputStream>)
    requires
        graph.wf(),
        env < graph@.len(),
    ensures
        old(dependencies)@.is_prefix_of(final(dependencies)@),
        r is Ok ==> final(dependencies)@.len() > old(dependencies)@.len() && final(dependencies)@.last().handles.len() == job.commands.len(),
        r is Ok ==> final(dependencies)@.len() == old(dependencies)@.len() + pipelines_in_job(
            job,
            job.commands.len() as nat,
        ) + 1,
    decreases job, 2nat,
{
    let (first_output, first_input) = channels();
    match first_output.initialize(Vec::new()) {
        Ok(_) => {},
        Err(e) => {
            return Err(e);
        },
    }
    let (last_output, last_input) = channels();
    let handle = match job.spawn_and_execute(executor, dependencies, graph, env, printer, first_input, last_output) {
        Ok(h) => h,
        Err(e) => {
            return Err(e);
        },
    };
    dependencies.push(handle);
    match last_input.recv() {
        Ok(Value::TableStream(stream)) => Ok(stream),
        Ok(_) => error("Expected a stream"),
        Err(e) => Err(e),
    }
}

impl CellDefinition {
    /// Compiles the form into a value, in the scope `env` of `graph`.
    /// Pipelines that the form starts are added to `dependencies`, from
    /// which nothing is ever taken; whoever compiles waits for them, whether
    /// or not the compilation succeeds. Where it succeeds, one pipeline was
    /// added for each pipeline in the form, the form itself being the last
    /// where it is one. A form without effects adds none, and what it
    /// compiles to is what `evaluate` says.
    pub fn compile<E: Executor>(
        &self,
        executor: &mut E,
        dependencies: &mut Vec<JobJoinHandle>,
        graph: &ScopeGraph,
        env: usize,
        printer: &Printer,
    ) -> (r: CrushResult<Value>)
        requires
            graph.wf(),
            env < graph@.len(),
        ensures
            old(dependencies)@.is_prefix_of(final(dependencies)@),
            r is Ok ==> final(dependencies)@.len() == old(dependencies)@.len() + pipelines_in(self),
            is_pure(self, graph@, env as int) ==> final(dependencies)@ == old(dependencies)@ && agrees(
                r,
                evaluate(self, graph@, env as int),
            ),
            self is Time ==> (r matches Ok(v) ==> v@ is Time),
            self matches CellDefinition::Time(cells) ==> (all_pure(cells, graph@, env as int, cells.len() as nat)
                ==> final(dependencies)@ == old(dependencies)@ && match evaluate_all(
                cells,
                graph@,
                env as int,
                cells.len() as nat,
            ) {
                Err(f) => fails_with(r, f.0, f.1),
                Ok(vs) => match time_request(vs) {
                    Ok(_) => r is Ok,
                    Err(f) => fails_with(r, f.0, f.1),
                },
            }),
            self is Duration ==> (r matches Ok(v) ==> v@ is Duration),
            self is List ==> (r matches Ok(v) ==> v@ is List),
            self is JobDefintion ==> (r matches Ok(v) ==> v@ is TableStream),
            self is MaterializedJobDefintion ==> (r matches Ok(v) ==> v@ is Table),
            self matches CellDefinition::JobDefintion(job) ==> (r is Ok ==> final(dependencies)@.len() > old(dependencies)@.len() && final(dependencies)@.last().handles.len() == job.commands.len()),
            self matches CellDefinition::MaterializedJobDefintion(job) ==> (r is Ok ==> final(dependencies)@.len()
                > old(dependencies)@.len() && final(dependencies)@.last().handles.len() == job.commands.len()),
        decreases self, 0nat,
    {
        match self {
            CellDefinition::Text(v) => Ok(Value::Text(v.clone())),
            CellDefinition::Integer(v) => Ok(Value::Integer(*v)),
            CellDefinition::Time(v) => compile_time_mode(v, executor, dependencies, graph, env, printer),
            CellDefinition::Duration(c) => compile_duration_mode(c, executor, dependencies, graph, env, printer),
            CellDefinition::Field(v) => Ok(Value::Field(clone_strings(v))),
            CellDefinition::Glob(v) => Ok(Value::Glob(Glob { pattern: v.pattern.clone() })),
            CellDefinition::Regex(v, r) => Ok(Value::Regex(v.clone(), clone_regex(r))),
            CellDefinition::Op(v) => Ok(Value::Op(v.clone())),
            CellDefinition::File(v) => Ok(Value::File(v.clone())),
            CellDefinition::JobDefintion(def) => {
                match run_job(def, executor, dependencies, graph, env, printer) {
                    Ok(stream) => Ok(Value::TableStream(stream)),
                    Err(e) => Err(e),
                }
            },
            CellDefinition::MaterializedJobDefintion(def) => {
                match run_job(def, executor, dependencies, graph, env, printer) {
                    Ok(stream) => Ok(materialize(stream)),
                    Err(e) => Err(e),
                }
            },
            CellDefinition::ClosureDefinition(c) => Ok(Value::Closure(c.with_env(env))),
            CellDefinition::Variable(s) => match graph.get(env, s) {
                Some(v) => Ok(v),
                None => lookup_error("Unknown variable"),
            },
            CellDefinition::List(l) => {
                match compile_all(&l.cells, executor, dependencies, graph, env, printer) {
                    Ok(values) => make_list(values),
                    Err(e) => Err(e),
                }
            },
            CellDefinition::Subscript(c, i) => {
                let container = c.compile(executor, dependencies, graph, env, printer);
                let index = i.compile(executor, dependencies, graph, env, printer);
                subscript(graph, container, index)
            },
        }
    }

    pub fn text(s: &str) -> (r: CellDefinition)
        ensures
            r matches CellDefinition::Text(t) && t@ == s@,
    {
        CellDefinition::Text(s.to_string())
    }

    pub fn op(s: &str) -> (r: CellDefinition)
        ensures
            r matches CellDefinition::Op(t) && t@ == s@,
    {
        CellDefinition::Op(s.to_string())
    }

    /// A regex literal: the source and the matcher compiled from it.
    pub fn regex(s: &str, r: regex::Regex) -> (d: CellDefinition)
        ensures
            d matches CellDefinition::Regex(t, m) && t@ == s@ && m == r,
    {
        CellDefinition::Regex(s.to_string(), r)
    }
}


/// Late binding. A closure holds the scope it was compiled in by its
/// identity and nothing of what the scope binds: what it compiles to is the
/// same whatever the scope binds, and a name that is bound in the scope
/// after the closure was compiled resolves, from the scope of the closure,
/// to the value it was bound to last.
pub proof fn lemma_closure_late_binding(
    c: Closure,
    g: Graph,
    s: usize,
    name: Seq<char>,
    value: ValueView,
)
    requires
        s < g.len(),
    ensures
        ({
            let definition = CellDefinition::ClosureDefinition(c);
            let later = g.update(
                s as int,
                ScopeDataView { mapping: rebound(g[s as int].mapping, name, value), ..g[s as int] },
            );
            &&& is_pure(&definition, g, s as int)
            &&& evaluate(&definition, g, s as int) == Ok::<ValueView, (ErrorKind, Seq<char>)>(
                ValueView::Closure(Closure { body: c.body, env: Some(s) }),
            )
            &&& evaluate(&definition, later, s as int) == evaluate(&definition, g, s as int)
            &&& resolve(later, s as int, name) == Some(value)
        }),
{
    lemma_rebound_lookup(g[s as int].mapping, name, value);
}


/// Whether two sequences of forms are the same, form by form.
pub open spec fn same_cells(a: &Vec<CellDefinition>, b: &Vec<CellDefinition>) -> bool
    decreases a,
{
    &&& a.len() == b.len()
    &&& forall|i: int| 0 <= i < a.len() ==> same(#[trigger] &a[i], &b[i])
}

/// Whether two sequences of arguments are the same, argument by argument.
pub open spec fn same_arguments(a: &Vec<ArgumentDefinition>, b: &Vec<ArgumentDefinition>) -> bool
    decreases a,
{
    &&& a.len() == b.len()
    &&& forall|i: int|
        0 <= i < a.len() ==> ((#[trigger] a[i]).name is Some <==> b[i].name is Some) && (a[i].name is Some
            ==> a[i].name->0@ == b[i].name->0@) && same(&a[i].value, &b[i].value)
}

/// Whether two pipelines are the same: the same commands with the same
/// arguments, in the same order.
pub open spec fn same_job(a: &Job, b: &Job) -> bool
    decreases a,
{
    &&& a.commands.len() == b.commands.len()
    &&& forall|i: int|
        0 <= i < a.commands.len() ==> (#[trigger] a.commands[i]).command == b.commands[i].command && same_arguments(
            &a.commands[i].arguments,
            &b.commands[i].arguments,
        )
}

/// Whether two forms are the same: the same variant, the same text and the
/// same parts. Of the matcher of a regex the pattern is looked at.
pub open spec fn same(a: &CellDefinition, b: &CellDefinition) -> bool
    decreases a,
{
    match (a, b) {
        (CellDefinition::Text(x), CellDefinition::Text(y)) => x@ == y@,
        (CellDefinition::Integer(x), CellDefinition::Integer(y)) => x == y,
        (CellDefinition::Time(x), CellDefinition::Time(y)) => same_cells(x, y),
        (CellDefinition::Duration(x), CellDefinition::Duration(y)) => same_cells(x, y),
        (CellDefinition::Field(x), CellDefinition::Field(y)) => strings_view(x) == strings_view(y),
        (CellDefinition::Glob(x), CellDefinition::Glob(y)) => x.pattern@ == y.pattern@,
        (CellDefinition::Regex(x, r), CellDefinition::Regex(y, q)) => x@ == y@ && regex_pattern(*r) == regex_pattern(*q),
        (CellDefinition::Op(x), CellDefinition::Op(y)) => x@ == y@,
        (CellDefinition::ClosureDefinition(x), CellDefinition::ClosureDefinition(y)) => x == y,
        (CellDefinition::JobDefintion(x), CellDefinition::JobDefintion(y)) => same_job(x, y),
        (CellDefinition::MaterializedJobDefintion(x), CellDefinition::MaterializedJobDefintion(y)) => same_job(x, y),
        (CellDefinition::File(x), CellDefinition::File(y)) => x@ == y@,
        (CellDefinition::Variable(x), CellDefinition::Variable(y)) => strings_view(x) == strings_view(y),
        (CellDefinition::List(x), CellDefinition::List(y)) => same_cells(&x.cells, &y.cells),
        (CellDefinition::Subscript(c, i), CellDefinition::Subscript(d, j)) => same(c, d) && same(i, j),
        _ => false,
    }
}

/// A copy of a sequence of forms.
fn clone_cells(cells: &Vec<CellDefinition>) -> (r: Vec<CellDefinition>)
    ensures
        same_cells(cells, &r),
    decreases cells,
{
    let mut out: Vec<CellDefinition> = Vec::new();
    let mut i: usize = 0;
    while i < cells.len()
        invariant
            i <= cells.len(),
            out.len() == i,
            forall|j: int| 0 <= j < i ==> same(#[trigger] &cells[j], &out[j]),
        decreases cells.len() - i,
    {
        out.push(cells[i].duplicate());
        i += 1;
    }
    out
}

/// A copy of a sequence of arguments.
fn clone_arguments(arguments: &Vec<ArgumentDefinition>) -> (r: Vec<ArgumentDefinition>)
    ensures
        same_arguments(arguments, &r),
    decreases arguments,
{
    let mut out: Vec<ArgumentDefinition> = Vec::new();
    let mut i: usize = 0;
    while i < arguments.len()
        invariant
            i <= arguments.len(),
            out.len() == i,
            forall|j: int|
                0 <= j < i ==> ((#[trigger] arguments[j]).name is Some <==> out[j].name is Some) && (
                arguments[j].name is Some ==> arguments[j].name->0@ == out[j].name->0@) && same(
                    &arguments[j].value,
                    &out[j].value,
                ),
        decreases arguments.len() - i,
    {
        let name = match &arguments[i].name {
            Some(n) => Some(n.clone()),
            None => None,
        };
        out.push(ArgumentDefinition { name, value: arguments[i].value.duplicate() });
        i += 1;
    }
    out
}

impl Job {
    /// A copy of the pipeline.
    pub fn duplicate(&self) -> (r: Job)
        ensures
            same_job(self, &r),
        decreases self,
    {
        let mut out: Vec<CallDefinition> = Vec::new();
        let mut i: usize = 0;
        while i < self.commands.len()
            invariant
                i <= self.commands.len(),
                out.len() == i,
                forall|j: int|
                    0 <= j < i ==> (#[trigger] self.commands[j]).command == out[j].command && same_arguments(
                        &self.commands[j].arguments,
                        &out[j].arguments,
                    ),
            decreases self.commands.len() - i,
        {
            let call = &self.commands[i];
            out.push(CallDefinition { command: share(&call.command), arguments: clone_arguments(&call.arguments) });
            i += 1;
        }
        Job { commands: out }
    }
}

impl CellDefinition {
    /// A copy of the form.
    pub fn duplicate(&self) -> (r: CellDefinition)
        ensures
            same(self, &r),
        decreases self,
    {
        match self {
            CellDefinition::Text(v) => CellDefinition::Text(v.clone()),
            CellDefinition::Integer(v) => CellDefinition::Integer(*v),
            CellDefinition::Time(v) => CellDefinition::Time(clone_cells(v)),
            CellDefinition::Duration(v) => CellDefinition::Duration(clone_cells(v)),
            CellDefinition::Field(v) => CellDefinition::Field(clone_strings(v)),
            CellDefinition::Glob(v) => CellDefinition::Glob(Glob { pattern: v.pattern.clone() }),
            CellDefinition::Regex(v, r) => CellDefinition::Regex(v.clone(), clone_regex(r)),
            CellDefinition::Op(v) => CellDefinition::Op(v.clone()),
            CellDefinition::ClosureDefinition(c) => CellDefinition::ClosureDefinition(c.duplicate()),
            CellDefinition::JobDefintion(j) => CellDefinition::JobDefintion(j.duplicate()),
            CellDefinition::MaterializedJobDefintion(j) => CellDefinition::MaterializedJobDefintion(j.duplicate()),
            CellDefinition::File(v) => CellDefinition::File(v.clone()),
            CellDefinition::Variable(v) => CellDefinition::Variable(clone_strings(v)),
            CellDefinition::List(l) => CellDefinition::List(ListDefinition { cells: clone_cells(&l.cells) }),
            CellDefinition::Subscript(c, i) => CellDefinition::Subscript(
                Box::new(c.duplicate()),
                Box::new(i.duplicate()),
            ),
        }
    }
}

impl Clone for CellDefinition {
    fn clone(&self) -> (r: CellDefinition)
        ensures
            same(self, &r),
    {
        self.duplicate()
    }
}

impl Clone for Job {
    fn clone(&self) -> (r: Job)
        ensures
            same_job(self, &r),
    {
        self.duplicate()
    }
}

impl Clone for Closure {
    fn clone(&self) -> (r: Closure)
        ensures
            r == *self,
    {
        self.duplicate()
    }
}

/// Forms that are the same compile to the same: the first `k` of two
/// sequences that are the same are without effects together, and evaluate
/// to the same.
pub proof fn lemma_same_cells_evaluate(
    a: &Vec<CellDefinition>,
    b: &Vec<CellDefinition>,
    g: Graph,
    env: int,
    k: nat,
)
    requires
        same_cells(a, b),
        k <= a.len(),
    ensures
        a.len() == b.len(),
        all_pure(a, g, env, k) == all_pure(b, g, env, k),
        evaluate_all(a, g, env, k) == evaluate_all(b, g, env, k),
    decreases a, k,
{
    if k > 0 {
        lemma_same_cells_evaluate(a, b, g, env, (k - 1) as nat);
        assert(same(&a[k - 1], &b[k - 1]));
        lemma_same_evaluates(&a[k - 1], &b[k - 1], g, env);
    }
}

/// Forms that are the same compile to the same: both are without effects
/// or neither is, and what they evaluate to is the same.
pub proof fn lemma_same_evaluates(a: &CellDefinition, b: &CellDefinition, g: Graph, env: int)
    requires
        same(a, b),
    ensures
        is_pure(a, g, env) == is_pure(b, g, env),
        evaluate(a, g, env) == evaluate(b, g, env),
    decreases a, 0nat,
{
    match a {
        CellDefinition::Duration(x) => {
            let y = b->Duration_0;
            lemma_same_cells_evaluate(x, &y, g, env, x.len() as nat);
        },
        CellDefinition::List(x) => {
            let y = b->List_0;
            lemma_same_cells_evaluate(&x.cells, &y.cells, g, env, x.cells.len() as nat);
        },
        CellDefinition::Subscript(c, i) => {
            lemma_same_evaluates(c, &b->Subscript_0, g, env);
            lemma_same_evaluates(i, &b->Subscript_1, g, env);
        },
        _ => {},
    }
}

} // verus!
