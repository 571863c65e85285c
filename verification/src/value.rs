//! The dynamically typed datum that pipelines carry, and its types.

use vstd::prelude::*;
use std::sync::Arc;
use crate::errors::{CrushResult, ErrorKind, fails_with, type_error};
use crate::text::{strings_view, str_eq, clone_strings, strings_eq};
use crate::stream::InputStream;
use crate::command::Command;
use crate::definition::Closure;

verus! {

/// An absolute timestamp: seconds and nanoseconds since the Unix epoch, with
/// the offset of the local time zone in seconds east of UTC.
#[derive(Debug, Clone, Copy, PartialEq, Eq, Structural)]
pub struct Time {
    pub seconds: i64,
    pub nanos: u32,
    pub offset: i32,
}

/// A signed interval, counted in nanoseconds.
#[derive(Debug, Clone, Copy, PartialEq, Eq, Structural)]
pub struct Duration {
    pub nanos: i128,
}

pub const NANOS_PER_SECOND: i128 = 1_000_000_000;

impl Time {
    /// The instant as a count of nanoseconds since the epoch. Leap seconds
    /// are not counted.
    pub open spec fn instant(self) -> int {
        self.seconds * 1_000_000_000 + self.nanos
    }

    /// The interval from `other` to `self`; negative when `self` is earlier.
    pub fn signed_duration_since(&self, other: &Time) -> (d: Duration)
        ensures
            d.nanos == self.instant() - other.instant(),
    {
        let a: i128 = self.seconds as i128 * NANOS_PER_SECOND + self.nanos as i128;
        let b: i128 = other.seconds as i128 * NANOS_PER_SECOND + other.nanos as i128;
        Duration { nanos: a - b }
    }
}

/// A named column of a row, a table or a stream.
#[derive(Debug)]
pub struct ColumnType {
    pub name: String,
    pub cell_type: ValueType,
}

/// The type of a value: a tag and, for composite values, the inner schema.
#[derive(Debug)]
pub enum ValueType {
    Text,
    Integer,
    Bool,
    Time,
    Duration,
    Field,
    Glob,
    Regex,
    File,
    Op,
    Empty,
    Scope,
    Closure,
    Command,
    Struct,
    List(Box<ValueType>),
    Dict(Box<ValueType>, Box<ValueType>),
    Row(Vec<ColumnType>),
    Table(Vec<ColumnType>),
    TableStream(Vec<ColumnType>),
}

pub struct ColumnTypeView {
    pub name: Seq<char>,
    pub cell_type: ValueTypeView,
}

pub enum ValueTypeView {
    Text,
    Integer,
    Bool,
    Time,
    Duration,
    Field,
    Glob,
    Regex,
    File,
    Op,
    Empty,
    Scope,
    Closure,
    Command,
    Struct,
    List(Box<ValueTypeView>),
    Dict(Box<ValueTypeView>, Box<ValueTypeView>),
    Row(Seq<ColumnTypeView>),
    Table(Seq<ColumnTypeView>),
    TableStream(Seq<ColumnTypeView>),
}

/// The schema that a sequence of columns stands for.
pub open spec fn columns_view(columns: &Vec<ColumnType>) -> Seq<ColumnTypeView>
    decreases columns,
{
    Seq::new(
        columns.len() as nat,
        |i: int|
            if 0 <= i < columns.len() {
                columns[i].model()
            } else {
                arbitrary()
            },
    )
}

impl ColumnType {
    pub open spec fn model(&self) -> ColumnTypeView
        decreases self,
    {
        ColumnTypeView { name: self.name@, cell_type: self.cell_type.model() }
    }
}

impl ValueType {
    pub open spec fn model(&self) -> ValueTypeView
        decreases self,
    {
        match self {
            ValueType::Text => ValueTypeView::Text,
            ValueType::Integer => ValueTypeView::Integer,
            ValueType::Bool => ValueTypeView::Bool,
            ValueType::Time => ValueTypeView::Time,
            ValueType::Duration => ValueTypeView::Duration,
            ValueType::Field => ValueTypeView::Field,
            ValueType::Glob => ValueTypeView::Glob,
            ValueType::Regex => ValueTypeView::Regex,
            ValueType::File => ValueTypeView::File,
            ValueType::Op => ValueTypeView::Op,
            ValueType::Empty => ValueTypeView::Empty,
            ValueType::Scope => ValueTypeView::Scope,
            ValueType::Closure => ValueTypeView::Closure,
            ValueType::Command => ValueTypeView::Command,
            ValueType::Struct => ValueTypeView::Struct,
            ValueType::List(t) => ValueTypeView::List(Box::new(t.model())),
            ValueType::Dict(k, v) => ValueTypeView::Dict(Box::new(k.model()), Box::new(v.model())),
            ValueType::Row(c) => ValueTypeView::Row(columns_view(c)),
            ValueType::Table(c) => ValueTypeView::Table(columns_view(c)),
            ValueType::TableStream(c) => ValueTypeView::TableStream(columns_view(c)),
        }
    }
}

impl View for ColumnType {
    type V = ColumnTypeView;

    open spec fn view(&self) -> ColumnTypeView {
        self.model()
    }
}

impl View for ValueType {
    type V = ValueTypeView;

    open spec fn view(&self) -> ValueTypeView {
        self.model()
    }
}

impl Clone for ValueType {
    fn clone(&self) -> (r: ValueType)
        ensures
            r@ == self@,
    {
        self.duplicate()
    }
}

impl Clone for ColumnType {
    fn clone(&self) -> (r: ColumnType)
        ensures
            r@ == self@,
    {
        ColumnType { name: self.name.clone(), cell_type: self.cell_type.duplicate() }
    }
}

/// A copy of a schema.
pub fn clone_columns(columns: &Vec<ColumnType>) -> (r: Vec<ColumnType>)
    ensures
        columns_view(&r) == columns_view(columns),
    decreases columns,
{
    let mut out: Vec<ColumnType> = Vec::new();
    let mut i: usize = 0;
    while i < columns.len()
        invariant
            i <= columns.len(),
            out.len() == i,
            forall|j: int| 0 <= j < i ==> out[j].model() == columns[j].model(),
        decreases columns.len() - i,
    {
        let c = &columns[i];
        out.push(ColumnType { name: c.name.clone(), cell_type: c.cell_type.duplicate() });
        i += 1;
    }
    assert(columns_view(&out) =~= columns_view(columns));
    out
}

/// Whether two schemas have the same columns: count, names and types.
pub fn columns_eq(a: &Vec<ColumnType>, b: &Vec<ColumnType>) -> (r: bool)
    ensures
        r == (columns_view(a) == columns_view(b)),
    decreases a,
{
    if a.len() != b.len() {
        assert(columns_view(a).len() != columns_view(b).len());
        return false;
    }
    let mut i: usize = 0;
    while i < a.len()
        invariant
            i <= a.len(),
            a.len() == b.len(),
            forall|j: int| 0 <= j < i ==> a[j].model() == b[j].model(),
        decreases a.len() - i,
    {
        if !str_eq(a[i].name.as_str(), b[i].name.as_str()) || !a[i].cell_type.type_eq(&b[i].cell_type) {
            assert(columns_view(a)[i as int] != columns_view(b)[i as int]);
            return false;
        }
        i += 1;
    }
    assert(columns_view(a) =~= columns_view(b));
    true
}

impl ValueType {
    /// A copy of the type.
    pub fn duplicate(&self) -> (r: ValueType)
        ensures
            r@ == self@,
        decreases self,
    {
        match self {
            ValueType::Text => ValueType::Text,
            ValueType::Integer => ValueType::Integer,
            ValueType::Bool => ValueType::Bool,
            ValueType::Time => ValueType::Time,
            ValueType::Duration => ValueType::Duration,
            ValueType::Field => ValueType::Field,
            ValueType::Glob => ValueType::Glob,
            ValueType::Regex => ValueType::Regex,
            ValueType::File => ValueType::File,
            ValueType::Op => ValueType::Op,
            ValueType::Empty => ValueType::Empty,
            ValueType::Scope => ValueType::Scope,
            ValueType::Closure => ValueType::Closure,
            ValueType::Command => ValueType::Command,
            ValueType::Struct => ValueType::Struct,
            ValueType::List(t) => ValueType::List(Box::new(t.duplicate())),
            ValueType::Dict(k, v) => ValueType::Dict(Box::new(k.duplicate()), Box::new(v.duplicate())),
            ValueType::Row(c) => ValueType::Row(clone_columns(c)),
            ValueType::Table(c) => ValueType::Table(clone_columns(c)),
            ValueType::TableStream(c) => ValueType::TableStream(clone_columns(c)),
        }
    }

    /// Whether two types are the same type: the same tag and the same inner
    /// schema.
    pub fn type_eq(&self, other: &ValueType) -> (r: bool)
        ensures
            r == (self@ == other@),
        decreases self,
    {
        match (self, other) {
            (ValueType::Text, ValueType::Text) => true,
            (ValueType::Integer, ValueType::Integer) => true,
            (ValueType::Bool, ValueType::Bool) => true,
            (ValueType::Time, ValueType::Time) => true,
            (ValueType::Duration, ValueType::Duration) => true,
            (ValueType::Field, ValueType::Field) => true,
            (ValueType::Glob, ValueType::Glob) => true,
            (ValueType::Regex, ValueType::Regex) => true,
            (ValueType::File, ValueType::File) => true,
            (ValueType::Op, ValueType::Op) => true,
            (ValueType::Empty, ValueType::Empty) => true,
            (ValueType::Scope, ValueType::Scope) => true,
            (ValueType::Closure, ValueType::Closure) => true,
            (ValueType::Command, ValueType::Command) => true,
            (ValueType::Struct, ValueType::Struct) => true,
            (ValueType::List(a), ValueType::List(b)) => a.type_eq(b),
            (ValueType::Dict(ak, av), ValueType::Dict(bk, bv)) => ak.type_eq(bk) && av.type_eq(bv),
            (ValueType::Row(a), ValueType::Row(b)) => columns_eq(a, b),
            (ValueType::Table(a), ValueType::Table(b)) => columns_eq(a, b),
            (ValueType::TableStream(a), ValueType::TableStream(b)) => columns_eq(a, b),
            _ => false,
        }
    }
}


/// `Regex` of the regex crate: a compiled matcher.
#[verifier::external_type_specification]
#[verifier::external_body]
pub struct ExRegex(regex::Regex);

/// The pattern that a matcher was compiled from, as its `as_str` gives it.
pub uninterp spec fn regex_pattern(r: regex::Regex) -> Seq<char>;

/// `<Regex as Clone>::clone` of the regex crate: a matcher that shares the
/// compiled program and the pattern of the one it was made from. Its scratch
/// space is its own, so the two are not one value; what is claimed is that
/// the pattern is the same.
#[verifier::external_body]
pub(crate) fn clone_regex(r: &regex::Regex) -> (c: regex::Regex)
    ensures
        regex_pattern(c) == regex_pattern(*r),
{
    r.clone()
}

/// `Regex::as_str` of the regex crate: the pattern that the matcher was
/// compiled from.
#[verifier::external_body]
fn regex_as_str(r: &regex::Regex) -> (s: String)
    ensures
        s@ == regex_pattern(*r),
{
    r.as_str().to_string()
}

/// The pattern that a matcher was compiled from.
pub fn pattern_of(r: &regex::Regex) -> (s: String)
    ensures
        s@ == regex_pattern(*r),
{
    regex_as_str(r)
}

/// `Arc::clone` of std: another pointer to the same allocation, so the value
/// behind the result is the value behind the argument.
#[verifier::external_body]
pub(crate) fn share<T>(a: &Arc<T>) -> (r: Arc<T>)
    ensures
        r == *a,
{
    Arc::clone(a)
}

/// A glob pattern, kept as its source text.
#[derive(Debug)]
pub struct Glob {
    pub pattern: String,
}

/// One tuple of cells.
#[derive(Debug)]
pub struct Row {
    pub cells: Vec<Value>,
}

/// Ordered named fields, with an optional parent whose fields are inherited.
#[derive(Debug)]
pub struct Struct {
    pub fields: Vec<(String, Value)>,
    pub parent: Option<Box<Struct>>,
}

/// One dynamically typed datum.
#[derive(Debug)]
pub enum Value {
    Text(String),
    Integer(i128),
    Bool(bool),
    Time(Time),
    Duration(Duration),
    Field(Vec<String>),
    Glob(Glob),
    Regex(String, regex::Regex),
    File(String),
    Op(String),
    Empty,
    /// The element type and the elements.
    List(ValueType, Vec<Value>),
    /// The key type, the value type and the entries. In a dict no key
    /// occurs twice (`keys_apart`), which `insert` keeps.
    Dict(ValueType, ValueType, Vec<(Value, Value)>),
    Struct(Struct),
    /// One row with its own column types.
    Row(Vec<ColumnType>, Row),
    /// A live stream of rows; reading drains it.
    TableStream(InputStream),
    /// Materialized rows with their column types.
    Table(Vec<ColumnType>, Vec<Row>),
    /// A reference to a scope, by its identity.
    Scope(usize),
    Closure(Closure),
    Command(Arc<Command>),
}

pub struct StructView {
    pub fields: Seq<(Seq<char>, ValueView)>,
    pub parent: Option<Box<StructView>>,
}

pub enum ValueView {
    Text(Seq<char>),
    Integer(int),
    Bool(bool),
    Time(Time),
    Duration(Duration),
    Field(Seq<Seq<char>>),
    Glob(Seq<char>),
    /// The source that is kept for display, and the pattern of the matcher.
    Regex(Seq<char>, Seq<char>),
    File(Seq<char>),
    Op(Seq<char>),
    Empty,
    List(ValueTypeView, Seq<ValueView>),
    Dict(ValueTypeView, ValueTypeView, Seq<(ValueView, ValueView)>),
    Struct(StructView),
    Row(Seq<ColumnTypeView>, Seq<ValueView>),
    TableStream(Seq<ColumnTypeView>),
    Table(Seq<ColumnTypeView>, Seq<Seq<ValueView>>),
    Scope(nat),
    Closure(Closure),
    Command(Command),
}

/// The values that a sequence of cells stands for.
pub open spec fn values_view(values: &Vec<Value>) -> Seq<ValueView>
    decreases values,
{
    Seq::new(
        values.len() as nat,
        |i: int|
            if 0 <= i < values.len() {
                values[i].model()
            } else {
                arbitrary()
            },
    )
}

pub open spec fn rows_view(rows: &Vec<Row>) -> Seq<Seq<ValueView>>
    decreases rows,
{
    Seq::new(
        rows.len() as nat,
        |i: int|
            if 0 <= i < rows.len() {
                rows[i].model()
            } else {
                arbitrary()
            },
    )
}

pub open spec fn entries_view(entries: &Vec<(Value, Value)>) -> Seq<(ValueView, ValueView)>
    decreases entries,
{
    Seq::new(
        entries.len() as nat,
        |i: int|
            if 0 <= i < entries.len() {
                (entries[i].0.model(), entries[i].1.model())
            } else {
                arbitrary()
            },
    )
}

pub open spec fn fields_view(fields: &Vec<(String, Value)>) -> Seq<(Seq<char>, ValueView)>
    decreases fields,
{
    Seq::new(
        fields.len() as nat,
        |i: int|
            if 0 <= i < fields.len() {
                (fields[i].0@, fields[i].1.model())
            } else {
                arbitrary()
            },
    )
}

impl Row {
    pub open spec fn model(&self) -> Seq<ValueView>
        decreases self,
    {
        values_view(&self.cells)
    }
}

impl Struct {
    pub open spec fn model(&self) -> StructView
        decreases self,
    {
        StructView {
            fields: fields_view(&self.fields),
            parent: match &self.parent {
                None => None,
                Some(p) => Some(Box::new(p.model())),
            },
        }
    }
}

impl Value {
    pub open spec fn model(&self) -> ValueView
        decreases self,
    {
        match self {
            Value::Text(s) => ValueView::Text(s@),
            Value::Integer(i) => ValueView::Integer(*i as int),
            Value::Bool(b) => ValueView::Bool(*b),
            Value::Time(t) => ValueView::Time(*t),
            Value::Duration(d) => ValueView::Duration(*d),
            Value::Field(f) => ValueView::Field(strings_view(f)),
            Value::Glob(g) => ValueView::Glob(g.pattern@),
            Value::Regex(s, r) => ValueView::Regex(s@, regex_pattern(*r)),
            Value::File(p) => ValueView::File(p@),
            Value::Op(s) => ValueView::Op(s@),
            Value::Empty => ValueView::Empty,
            Value::List(t, cells) => ValueView::List(t.model(), values_view(cells)),
            Value::Dict(k, v, entries) => ValueView::Dict(k.model(), v.model(), entries_view(entries)),
            Value::Struct(s) => ValueView::Struct(s.model()),
            Value::Row(types, row) => ValueView::Row(columns_view(types), row.model()),
            Value::TableStream(stream) => ValueView::TableStream(stream.schema()),
            Value::Table(types, rows) => ValueView::Table(columns_view(types), rows_view(rows)),
            Value::Scope(id) => ValueView::Scope(*id as nat),
            Value::Closure(c) => ValueView::Closure(*c),
            Value::Command(c) => ValueView::Command(**c),
        }
    }
}

impl View for Row {
    type V = Seq<ValueView>;

    open spec fn view(&self) -> Seq<ValueView> {
        self.model()
    }
}

impl View for Struct {
    type V = StructView;

    open spec fn view(&self) -> StructView {
        self.model()
    }
}

impl View for Value {
    type V = ValueView;

    open spec fn view(&self) -> ValueView {
        self.model()
    }
}


impl ValueView {
    /// The type of a value.
    pub open spec fn value_type(self) -> ValueTypeView {
        match self {
            ValueView::Text(_) => ValueTypeView::Text,
            ValueView::Integer(_) => ValueTypeView::Integer,
            ValueView::Bool(_) => ValueTypeView::Bool,
            ValueView::Time(_) => ValueTypeView::Time,
            ValueView::Duration(_) => ValueTypeView::Duration,
            ValueView::Field(_) => ValueTypeView::Field,
            ValueView::Glob(_) => ValueTypeView::Glob,
            ValueView::Regex(_, _) => ValueTypeView::Regex,
            ValueView::File(_) => ValueTypeView::File,
            ValueView::Op(_) => ValueTypeView::Op,
            ValueView::Empty => ValueTypeView::Empty,
            ValueView::List(t, _) => ValueTypeView::List(Box::new(t)),
            ValueView::Dict(k, v, _) => ValueTypeView::Dict(Box::new(k), Box::new(v)),
            ValueView::Struct(_) => ValueTypeView::Struct,
            ValueView::Row(c, _) => ValueTypeView::Row(c),
            ValueView::TableStream(c) => ValueTypeView::TableStream(c),
            ValueView::Table(c, _) => ValueTypeView::Table(c),
            ValueView::Scope(_) => ValueTypeView::Scope,
            ValueView::Closure(_) => ValueTypeView::Closure,
            ValueView::Command(_) => ValueTypeView::Command,
        }
    }

    /// Whether the value is a plain datum: one that can be compared, used as
    /// a key of a dict and written out as it is.
    pub open spec fn is_scalar(self) -> bool {
        self is Text || self is Integer || self is Bool || self is Time || self is Duration
            || self is Field || self is Glob || self is File || self is Op || self is Empty
    }
}

impl ValueTypeView {
    /// Whether a value can stand where this type is asked for: its own type
    /// is this type, tag and inner schema alike. Nothing is coerced.
    pub open spec fn is(self, value: ValueView) -> bool {
        value.value_type() == self
    }
}

/// A copy of a sequence of cells.
pub fn clone_values(values: &Vec<Value>) -> (r: Vec<Value>)
    ensures
        values_view(&r) == values_view(values),
    decreases values,
{
    let mut out: Vec<Value> = Vec::new();
    let mut i: usize = 0;
    while i < values.len()
        invariant
            i <= values.len(),
            out.len() == i,
            forall|j: int| 0 <= j < i ==> out[j].model() == values[j].model(),
        decreases values.len() - i,
    {
        out.push(values[i].duplicate());
        i += 1;
    }
    assert(values_view(&out) =~= values_view(values));
    out
}

/// A copy of a sequence of rows.
pub fn clone_rows(rows: &Vec<Row>) -> (r: Vec<Row>)
    ensures
        rows_view(&r) == rows_view(rows),
    decreases rows,
{
    let mut out: Vec<Row> = Vec::new();
    let mut i: usize = 0;
    while i < rows.len()
        invariant
            i <= rows.len(),
            out.len() == i,
            forall|j: int| 0 <= j < i ==> out[j].model() == rows[j].model(),
        decreases rows.len() - i,
    {
        out.push(rows[i].duplicate());
        i += 1;
    }
    assert(rows_view(&out) =~= rows_view(rows));
    out
}

fn clone_entries(entries: &Vec<(Value, Value)>) -> (r: Vec<(Value, Value)>)
    ensures
        entries_view(&r) == entries_view(entries),
    decreases entries,
{
    let mut out: Vec<(Value, Value)> = Vec::new();
    let mut i: usize = 0;
    while i < entries.len()
        invariant
            i <= entries.len(),
            out.len() == i,
            forall|j: int|
                0 <= j < i ==> out[j].0.model() == entries[j].0.model() && out[j].1.model()
                    == entries[j].1.model(),
        decreases entries.len() - i,
    {
        let e = &entries[i];
        out.push((e.0.duplicate(), e.1.duplicate()));
        i += 1;
    }
    assert(entries_view(&out) =~= entries_view(entries));
    out
}

fn clone_fields(fields: &Vec<(String, Value)>) -> (r: Vec<(String, Value)>)
    ensures
        fields_view(&r) == fields_view(fields),
    decreases fields,
{
    let mut out: Vec<(String, Value)> = Vec::new();
    let mut i: usize = 0;
    while i < fields.len()
        invariant
            i <= fields.len(),
            out.len() == i,
            forall|j: int|
                0 <= j < i ==> out[j].0@ == fields[j].0@ && out[j].1.model() == fields[j].1.model(),
        decreases fields.len() - i,
    {
        let f = &fields[i];
        out.push((f.0.clone(), f.1.duplicate()));
        i += 1;
    }
    assert(fields_view(&out) =~= fields_view(fields));
    out
}

impl Row {
    pub fn new(cells: Vec<Value>) -> (r: Row)
        ensures
            r.cells == cells,
    {
        Row { cells }
    }

    /// The cells of the row, in column order.
    pub fn cells(&self) -> (r: &Vec<Value>)
        ensures
            r == &self.cells,
    {
        &self.cells
    }

    /// A copy of the row.
    pub fn duplicate(&self) -> (r: Row)
        ensures
            r@ == self@,
        decreases self,
    {
        Row { cells: clone_values(&self.cells) }
    }
}

impl Struct {
    pub fn new(fields: Vec<(String, Value)>, parent: Option<Box<Struct>>) -> (r: Struct)
        ensures
            r.fields == fields,
            r.parent == parent,
    {
        Struct { fields, parent }
    }

    /// A copy of the struct and of its parents.
    pub fn duplicate(&self) -> (r: Struct)
        ensures
            r@ == self@,
        decreases self,
    {
        let parent = match &self.parent {
            None => None,
            Some(p) => Some(Box::new(p.duplicate())),
        };
        Struct { fields: clone_fields(&self.fields), parent }
    }
}

impl Value {
    /// A copy of the value. A stream is shared, not copied: the copy reads
    /// from the same channel.
    pub fn duplicate(&self) -> (r: Value)
        ensures
            r@ == self@,
        decreases self,
    {
        match self {
            Value::Text(s) => Value::Text(s.clone()),
            Value::Integer(i) => Value::Integer(*i),
            Value::Bool(b) => Value::Bool(*b),
            Value::Time(t) => Value::Time(*t),
            Value::Duration(d) => Value::Duration(*d),
            Value::Field(f) => Value::Field(clone_strings(f)),
            Value::Glob(g) => Value::Glob(Glob { pattern: g.pattern.clone() }),
            Value::Regex(s, r) => Value::Regex(s.clone(), clone_regex(r)),
            Value::File(p) => Value::File(p.clone()),
            Value::Op(s) => Value::Op(s.clone()),
            Value::Empty => Value::Empty,
            Value::List(t, cells) => Value::List(t.duplicate(), clone_values(cells)),
            Value::Dict(k, v, entries) => Value::Dict(k.duplicate(), v.duplicate(), clone_entries(entries)),
            Value::Struct(s) => Value::Struct(s.duplicate()),
            Value::Row(types, row) => Value::Row(clone_columns(types), row.duplicate()),
            Value::TableStream(stream) => Value::TableStream(stream.duplicate()),
            Value::Table(types, rows) => Value::Table(clone_columns(types), clone_rows(rows)),
            Value::Scope(id) => Value::Scope(*id),
            Value::Closure(c) => Value::Closure(c.duplicate()),
            Value::Command(c) => Value::Command(share(c)),
        }
    }

    /// The type of the value.
    pub fn value_type(&self) -> (r: ValueType)
        ensures
            r@ == self@.value_type(),
    {
        match self {
            Value::Text(_) => ValueType::Text,
            Value::Integer(_) => ValueType::Integer,
            Value::Bool(_) => ValueType::Bool,
            Value::Time(_) => ValueType::Time,
            Value::Duration(_) => ValueType::Duration,
            Value::Field(_) => ValueType::Field,
            Value::Glob(_) => ValueType::Glob,
            Value::Regex(_, _) => ValueType::Regex,
            Value::File(_) => ValueType::File,
            Value::Op(_) => ValueType::Op,
            Value::Empty => ValueType::Empty,
            Value::List(t, _) => ValueType::List(Box::new(t.duplicate())),
            Value::Dict(k, v, _) => ValueType::Dict(Box::new(k.duplicate()), Box::new(v.duplicate())),
            Value::Struct(_) => ValueType::Struct,
            Value::Row(types, _) => ValueType::Row(clone_columns(types)),
            Value::TableStream(stream) => ValueType::TableStream(clone_columns(stream.types())),
            Value::Table(types, _) => ValueType::Table(clone_columns(types)),
            Value::Scope(_) => ValueType::Scope,
            Value::Closure(_) => ValueType::Closure,
            Value::Command(_) => ValueType::Command,
        }
    }

    /// Whether both values are plain data and the same datum.
    pub fn scalar_eq(&self, other: &Value) -> (r: bool)
        ensures
            r == (self@.is_scalar() && self@ == other@),
    {
        match (self, other) {
            (Value::Text(a), Value::Text(b)) => str_eq(a.as_str(), b.as_str()),
            (Value::Integer(a), Value::Integer(b)) => *a == *b,
            (Value::Bool(a), Value::Bool(b)) => *a == *b,
            (Value::Time(a), Value::Time(b)) => *a == *b,
            (Value::Duration(a), Value::Duration(b)) => *a == *b,
            (Value::Field(a), Value::Field(b)) => strings_eq(a, b),
            (Value::Glob(a), Value::Glob(b)) => str_eq(a.pattern.as_str(), b.pattern.as_str()),
            (Value::File(a), Value::File(b)) => str_eq(a.as_str(), b.as_str()),
            (Value::Op(a), Value::Op(b)) => str_eq(a.as_str(), b.as_str()),
            (Value::Empty, Value::Empty) => true,
            _ => false,
        }
    }
}

impl Clone for Row {
    fn clone(&self) -> (r: Row)
        ensures
            r@ == self@,
    {
        self.duplicate()
    }
}

impl Clone for Struct {
    fn clone(&self) -> (r: Struct)
        ensures
            r@ == self@,
    {
        self.duplicate()
    }
}

impl Clone for Value {
    fn clone(&self) -> (r: Value)
        ensures
            r@ == self@,
    {
        self.duplicate()
    }
}

impl ValueType {
    /// Whether `value` can stand where this type is asked for.
    pub fn is(&self, value: &Value) -> (r: bool)
        ensures
            r == self@.is(value@),
    {
        let t = value.value_type();
        t.type_eq(self)
    }
}


/// The index of the first entry whose key is the plain datum `key`.
pub open spec fn is_entry_of(entries: Seq<(ValueView, ValueView)>, key: ValueView, i: int) -> bool {
    &&& 0 <= i < entries.len()
    &&& entries[i].0.is_scalar()
    &&& entries[i].0 == key
    &&& forall|j: int| 0 <= j < i ==> !((#[trigger] entries[j]).0.is_scalar() && entries[j].0 == key)
}

/// Whether some entry has the plain datum `key` for its key.
pub open spec fn has_key(entries: Seq<(ValueView, ValueView)>, key: ValueView) -> bool {
    exists|i: int| 0 <= i < entries.len() && (#[trigger] entries[i]).0.is_scalar() && entries[i].0 == key
}

/// The index of the first entry whose key is the plain datum `key`.
pub open spec fn entry_index(entries: Seq<(ValueView, ValueView)>, key: ValueView) -> int {
    choose|i: int| is_entry_of(entries, key, i)
}

/// The entries after `key` has been bound to `value`: in place where an
/// entry had the key, at the end where none had.
pub open spec fn inserted(entries: Seq<(ValueView, ValueView)>, key: ValueView, value: ValueView) -> Seq<
    (ValueView, ValueView),
> {
    if has_key(entries, key) {
        entries.update(entry_index(entries, key), (key, value))
    } else {
        entries.push((key, value))
    }
}

/// No key occurs twice among the entries: this is what makes a sequence of
/// entries a dict.
pub open spec fn keys_apart(entries: Seq<(ValueView, ValueView)>) -> bool {
    forall|i: int, j: int| 0 <= i < j < entries.len() ==> (#[trigger] entries[i]).0 != (#[trigger] entries[j]).0
}

/// Binding a key keeps the keys apart.
pub proof fn lemma_inserted_keeps_keys_apart(entries: Seq<(ValueView, ValueView)>, key: ValueView, value: ValueView)
    requires
        keys_apart(entries),
        key.is_scalar(),
    ensures
        keys_apart(inserted(entries, key, value)),
{
    let after = inserted(entries, key, value);
    if has_key(entries, key) {
        let k = choose|k: int| 0 <= k < entries.len() && (#[trigger] entries[k]).0.is_scalar() && entries[k].0 == key;
        lemma_has_first_entry(entries, key, k);
        let i0 = entry_index(entries, key);
        assert(is_entry_of(entries, key, i0));
        assert forall|i: int, j: int| 0 <= i < j < after.len() implies (#[trigger] after[i]).0 != (#[trigger] after[j]).0 by {
            assert(after[i].0 == entries[i].0);
            assert(after[j].0 == entries[j].0);
        }
    } else {
        assert forall|i: int, j: int| 0 <= i < j < after.len() implies (#[trigger] after[i]).0 != (#[trigger] after[j]).0 by {
            if j == entries.len() {
                assert(after[i] == entries[i]);
                if entries[i].0 == key {
                    assert(entries[i].0.is_scalar());
                }
            } else {
                assert(after[i] == entries[i] && after[j] == entries[j]);
            }
        }
    }
}

/// A key that some entry has is the key of a first entry.
pub proof fn lemma_has_first_entry(entries: Seq<(ValueView, ValueView)>, key: ValueView, k: int)
    requires
        0 <= k < entries.len(),
        entries[k].0.is_scalar(),
        entries[k].0 == key,
    ensures
        is_entry_of(entries, key, entry_index(entries, key)),
    decreases k,
{
    if forall|j: int| 0 <= j < k ==> !((#[trigger] entries[j]).0.is_scalar() && entries[j].0 == key) {
        assert(is_entry_of(entries, key, k));
    } else {
        let j = choose|j: int| 0 <= j < k && (#[trigger] entries[j]).0.is_scalar() && entries[j].0 == key;
        lemma_has_first_entry(entries, key, j);
    }
}

/// The first entry with a key is the only index that `is_entry_of` accepts.
pub proof fn lemma_entry_index(entries: Seq<(ValueView, ValueView)>, key: ValueView, i: int)
    requires
        is_entry_of(entries, key, i),
    ensures
        has_key(entries, key),
        entry_index(entries, key) == i,
{
    let j = entry_index(entries, key);
    assert(is_entry_of(entries, key, j));
    if j < i {
        assert(!(entries[j].0.is_scalar() && entries[j].0 == key));
    } else if i < j {
        assert(!(entries[i].0.is_scalar() && entries[i].0 == key));
    }
}

/// The index of the first entry whose key is `key`, if there is one.
pub fn find_key(entries: &Vec<(Value, Value)>, key: &Value) -> (r: Option<usize>)
    ensures
        match r {
            Some(i) => is_entry_of(entries_view(entries), key@, i as int),
            None => !has_key(entries_view(entries), key@),
        },
{
    let mut i: usize = 0;
    while i < entries.len()
        invariant
            i <= entries.len(),
            forall|j: int|
                0 <= j < i ==> !((#[trigger] entries_view(entries)[j]).0.is_scalar() && entries_view(entries)[j].0
                    == key@),
        decreases entries.len() - i,
    {
        assert(entries_view(entries)[i as int].0 == entries[i as int].0@);
        if entries[i].0.scalar_eq(key) {
            return Some(i);
        }
        i += 1;
    }
    None
}

impl Value {
    /// Appends a value to a list. Fails, and changes nothing, where this is
    /// no list and where the value is not of the element type of the list.
    pub fn append(&mut self, value: Value) -> (r: CrushResult<()>)
        ensures
            match old(self)@ {
                ValueView::List(t, cells) => if t.is(value@) {
                    r is Ok && final(self)@ == ValueView::List(t, cells.push(value@))
                } else {
                    fails_with(r, ErrorKind::Type, "Wrong element type"@) && final(self)@ == old(self)@
                },
                _ => fails_with(r, ErrorKind::Type, "Expected a list"@) && final(self)@ == old(self)@,
            },
    {
        match self {
            Value::List(t, cells) => {
                if t.is(&value) {
                    let ghost before = values_view(cells);
                    cells.push(value);
                    assert(values_view(cells) =~= before.push(value@));
                    Ok(())
                } else {
                    type_error("Wrong element type")
                }
            },
            _ => type_error("Expected a list"),
        }
    }

    /// Binds a key of a dict to a value: in place where an entry has the
    /// key, at the end where none has. Fails, and changes nothing, where this
    /// is no dict, where the key is no plain datum of the key type, and
    /// where the value is not of the value type.
    pub fn insert(&mut self, key: Value, value: Value) -> (r: CrushResult<()>)
        ensures
            match old(self)@ {
                ValueView::Dict(kt, vt, entries) => if !(key@.is_scalar() && kt.is(key@)) {
                    fails_with(r, ErrorKind::Type, "Wrong key type"@) && final(self)@ == old(self)@
                } else if !vt.is(value@) {
                    fails_with(r, ErrorKind::Type, "Wrong value type"@) && final(self)@ == old(self)@
                } else {
                    r is Ok && final(self)@ == ValueView::Dict(kt, vt, inserted(entries, key@, value@)) && (
                    keys_apart(entries) ==> keys_apart(inserted(entries, key@, value@)))
                },
                _ => fails_with(r, ErrorKind::Type, "Expected a dict"@) && final(self)@ == old(self)@,
            },
    {
        match self {
            Value::Dict(kt, vt, entries) => {
                if !(plain_key(&key) && kt.is(&key)) {
                    return type_error("Wrong key type");
                }
                if !vt.is(&value) {
                    return type_error("Wrong value type");
                }
                let ghost before = entries_view(entries);
                proof {
                    if keys_apart(before) {
                        lemma_inserted_keeps_keys_apart(before, key@, value@);
                    }
                }
                match find_key(entries, &key) {
                    Some(i) => {
                        proof {
                            lemma_entry_index(before, key@, i as int);
                        }
                        entries[i] = (key, value);
                        assert(entries_view(entries) =~= before.update(i as int, (key@, value@)));
                    },
                    None => {
                        entries.push((key, value));
                        assert(entries_view(entries) =~= before.push((key@, value@)));
                    },
                }
                Ok(())
            },
            _ => type_error("Expected a dict"),
        }
    }
}

/// Whether a value is a plain datum, which can be the key of a dict.
pub fn plain_key(value: &Value) -> (r: bool)
    ensures
        r == value@.is_scalar(),
{
    match value {
        Value::Text(_) | Value::Integer(_) | Value::Bool(_) | Value::Time(_) | Value::Duration(_) | Value::Field(_) | Value::Glob(_) | Value::File(_) | Value::Op(_) | Value::Empty => true,
        _ => false,
    }
}

/// The name of the tag of a type.
pub open spec fn tag_name(t: ValueTypeView) -> Seq<char> {
    match t {
        ValueTypeView::Text => "text"@,
        ValueTypeView::Integer => "integer"@,
        ValueTypeView::Bool => "bool"@,
        ValueTypeView::Time => "time"@,
        ValueTypeView::Duration => "duration"@,
        ValueTypeView::Field => "field"@,
        ValueTypeView::Glob => "glob"@,
        ValueTypeView::Regex => "regex"@,
        ValueTypeView::File => "file"@,
        ValueTypeView::Op => "op"@,
        ValueTypeView::Empty => "empty"@,
        ValueTypeView::Scope => "scope"@,
        ValueTypeView::Closure => "closure"@,
        ValueTypeView::Command => "command"@,
        ValueTypeView::Struct => "struct"@,
        ValueTypeView::List(_) => "list"@,
        ValueTypeView::Dict(_, _) => "dict"@,
        ValueTypeView::Row(_) => "row"@,
        ValueTypeView::Table(_) => "table"@,
        ValueTypeView::TableStream(_) => "table_stream"@,
    }
}

impl ValueType {
    /// The name of the tag of the type.
    pub fn name(&self) -> (r: String)
        ensures
            r@ == tag_name(self@),
    {
        match self {
            ValueType::Text => "text".to_string(),
            ValueType::Integer => "integer".to_string(),
            ValueType::Bool => "bool".to_string(),
            ValueType::Time => "time".to_string(),
            ValueType::Duration => "duration".to_string(),
            ValueType::Field => "field".to_string(),
            ValueType::Glob => "glob".to_string(),
            ValueType::Regex => "regex".to_string(),
            ValueType::File => "file".to_string(),
            ValueType::Op => "op".to_string(),
            ValueType::Empty => "empty".to_string(),
            ValueType::Scope => "scope".to_string(),
            ValueType::Closure => "closure".to_string(),
            ValueType::Command => "command".to_string(),
            ValueType::Struct => "struct".to_string(),
            ValueType::List(_) => "list".to_string(),
            ValueType::Dict(_, _) => "dict".to_string(),
            ValueType::Row(_) => "row".to_string(),
            ValueType::Table(_) => "table".to_string(),
            ValueType::TableStream(_) => "table_stream".to_string(),
        }
    }
}

/// Whether every one of the values is data.
pub open spec fn all_data(values: Seq<ValueView>) -> bool
    decreases values,
{
    forall|i: int| 0 <= i < values.len() ==> (#[trigger] values[i]).is_data()
}

/// Whether every cell of every one of the rows is data.
pub open spec fn all_rows_data(rows: Seq<Seq<ValueView>>) -> bool
    decreases rows,
{
    forall|i: int| 0 <= i < rows.len() ==> all_data(#[trigger] rows[i])
}

/// Whether the key and the value of every one of the entries are data.
pub open spec fn all_entries_data(entries: Seq<(ValueView, ValueView)>) -> bool
    decreases entries,
{
    forall|i: int| 0 <= i < entries.len() ==> (#[trigger] entries[i]).0.is_data() && entries[i].1.is_data()
}

/// Whether the value of every one of the fields is data.
pub open spec fn all_fields_data(fields: Seq<(Seq<char>, ValueView)>) -> bool
    decreases fields,
{
    forall|i: int| 0 <= i < fields.len() ==> (#[trigger] fields[i]).1.is_data()
}

impl StructView {
    /// Whether the fields of the struct and of its parents are data.
    pub open spec fn is_data(self) -> bool
        decreases self,
    {
        all_fields_data(self.fields) && match self.parent {
            None => true,
            Some(p) => p.is_data(),
        }
    }
}

impl ValueView {
    /// Whether the value is data through and through: a plain datum or a
    /// regex, or a list, a dict, a struct, a row or a table whose parts are
    /// data. A value that is or holds a scope, a stream, a closure or a
    /// command is not.
    pub open spec fn is_data(self) -> bool
        decreases self,
    {
        match self {
            ValueView::List(_, cells) => all_data(cells),
            ValueView::Dict(_, _, entries) => all_entries_data(entries),
            ValueView::Struct(s) => s.is_data(),
            ValueView::Row(_, cells) => all_data(cells),
            ValueView::Table(_, rows) => all_rows_data(rows),
            ValueView::TableStream(_) => false,
            ValueView::Scope(_) => false,
            ValueView::Closure(_) => false,
            ValueView::Command(_) => false,
            _ => true,
        }
    }
}

/// Whether every one of the values is data.
pub fn values_are_data(values: &Vec<Value>) -> (r: bool)
    ensures
        r == all_data(values_view(values)),
    decreases values,
{
    let mut i: usize = 0;
    while i < values.len()
        invariant
            i <= values.len(),
            forall|j: int| 0 <= j < i ==> (#[trigger] values_view(values)[j]).is_data(),
        decreases values.len() - i,
    {
        assert(values_view(values)[i as int] == values[i as int]@);
        if !values[i].is_data() {
            assert(!all_data(values_view(values)));
            return false;
        }
        i += 1;
    }
    assert(all_data(values_view(values)));
    true
}

impl Struct {
    /// Whether the fields of the struct and of its parents are data.
    #[verifier::loop_isolation(false)]
    pub fn is_data(&self) -> (r: bool)
        ensures
            r == self@.is_data(),
        decreases self,
    {
        assert(self@.fields == fields_view(&self.fields));
        let mut i: usize = 0;
        while i < self.fields.len()
            invariant
                i <= self.fields.len(),
                forall|j: int| 0 <= j < i ==> (#[trigger] fields_view(&self.fields)[j]).1.is_data(),
            decreases self.fields.len() - i,
        {
            assert(fields_view(&self.fields)[i as int].1 == self.fields[i as int].1@);
            if !self.fields[i].1.is_data() {
                assert(!all_fields_data(self@.fields));
                return false;
            }
            i += 1;
        }
        assert(all_fields_data(self@.fields));
        match &self.parent {
            None => true,
            Some(p) => {
                assert(self@.parent == Some(Box::new(p.model())));
                p.is_data()
            },
        }
    }
}

impl Value {
    /// Whether the value is data through and through.
    #[verifier::loop_isolation(false)]
    pub fn is_data(&self) -> (r: bool)
        ensures
            r == self@.is_data(),
        decreases self,
    {
        match self {
            Value::List(t, cells) => {
                assert(self@ == ValueView::List(t.model(), values_view(cells)));
                values_are_data(cells)
            },
            Value::Dict(kt, vt, entries) => {
                assert(self@ == ValueView::Dict(kt.model(), vt.model(), entries_view(entries)));
                let mut i: usize = 0;
                while i < entries.len()
                    invariant
                        i <= entries.len(),
                        decreases_to!(self => entries),
                        forall|j: int|
                            0 <= j < i ==> (#[trigger] entries_view(entries)[j]).0.is_data() && entries_view(
                                entries,
                            )[j].1.is_data(),
                    decreases entries.len() - i,
                {
                    assert(entries_view(entries)[i as int] == (entries[i as int].0@, entries[i as int].1@));
                    proof {
                        broadcast use vstd::std_specs::vec::axiom_vec_index_decreases;
                        assert(decreases_to!(entries => entries[i as int]));
                    }
                    if !entries[i].0.is_data() || !entries[i].1.is_data() {
                        assert(!all_entries_data(entries_view(entries)));
                        return false;
                    }
                    i += 1;
                }
                assert(all_entries_data(entries_view(entries)));
                true
            },
            Value::Struct(s) => {
                assert(self@ == ValueView::Struct(s.model()));
                s.is_data()
            },
            Value::Row(types, row) => {
                assert(self@ == ValueView::Row(columns_view(types), values_view(&row.cells)));
                values_are_data(&row.cells)
            },
            Value::Table(types, rows) => {
                assert(self@ == ValueView::Table(columns_view(types), rows_view(rows)));
                let mut i: usize = 0;
                while i < rows.len()
                    invariant
                        i <= rows.len(),
                        decreases_to!(self => rows),
                        forall|j: int| 0 <= j < i ==> all_data(#[trigger] rows_view(rows)[j]),
                    decreases rows.len() - i,
                {
                    assert(rows_view(rows)[i as int] == rows[i as int]@);
                    proof {
                        broadcast use vstd::std_specs::vec::axiom_vec_index_decreases;
                        assert(decreases_to!(rows => rows[i as int]));
                    }
                    assert(rows[i as int]@ == values_view(&rows[i as int].cells));
                    if !values_are_data(&rows[i].cells) {
                        assert(!all_rows_data(rows_view(rows)));
                        return false;
                    }
                    i += 1;
                }
                assert(all_rows_data(rows_view(rows)));
                true
            },
            Value::TableStream(_) => false,
            Value::Scope(_) => false,
            Value::Closure(_) => false,
            Value::Command(_) => false,
            _ => true,
        }
    }
}

} // verus!
