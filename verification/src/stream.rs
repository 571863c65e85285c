//! Typed channels between the stages of a pipeline: a value channel hands
//! over one value, a row channel carries the rows of a stream, and the
//! reading end of a stream holds every row to the stream's schema.

use vstd::prelude::*;
use vstd::string::StringExecFns;
use crossbeam::channel::{Receiver, RecvTimeoutError, Sender};
use crate::errors::{
    CrushError, CrushResult, ErrorKind, error, type_error, send_error, recv_error, fails_with,
    send_message, recv_message,
};
use crate::value::{
    ColumnType, ColumnTypeView, Duration, Row, Value, ValueView, columns_view, clone_columns,
    tag_name, NANOS_PER_SECOND,
};

verus! {

/// `Sender` of crossbeam: the sending end of a channel.
#[verifier::external_type_specification]
#[verifier::external_body]
#[verifier::reject_recursive_types(T)]
pub struct ExSender<T>(Sender<T>);

/// `Receiver` of crossbeam: the receiving end of a channel.
#[verifier::external_type_specification]
#[verifier::external_body]
#[verifier::reject_recursive_types(T)]
pub struct ExReceiver<T>(Receiver<T>);

/// `RecvTimeoutError` of crossbeam: a receive timed out, or the channel is
/// empty and every sender is gone.
#[verifier::external_type_specification]
pub struct ExRecvTimeoutError(RecvTimeoutError);

/// The receiving end of a channel of rows. A value can hold a stream and a
/// row holds values, so this end is kept behind a type of its own.
#[derive(Debug)]
#[verifier::external_body]
pub struct RowReceiver {
    receiver: Receiver<Row>,
}

/// The capacity that a channel of rows was made with; none for a channel
/// without bound.
pub uninterp spec fn row_channel_capacity(sender: Sender<Row>) -> Option<usize>;

/// The capacity that a channel of values was made with.
pub uninterp spec fn value_channel_capacity(sender: Sender<Value>) -> Option<usize>;

/// The capacity that the channel of a receiver of values was made with.
pub uninterp spec fn value_receiver_capacity(receiver: Receiver<Value>) -> Option<usize>;

/// The capacity of a value channel.
pub const VALUE_CHANNEL_CAPACITY: usize = 1;

/// The capacity of the row channel of a synchronous stream.
pub const SYNC_STREAM_CAPACITY: usize = 128;

/// The largest capacity that a bounded channel is made with here.
pub const MAX_CHANNEL_CAPACITY: usize = 65536;

/// `bounded` of crossbeam, for values: a channel that holds at most `cap`
/// messages, which is the capacity that both of its ends report.
#[verifier::external_body]
fn bounded_values(cap: usize) -> (r: (Sender<Value>, Receiver<Value>))
    requires
        cap <= MAX_CHANNEL_CAPACITY,
    ensures
        value_channel_capacity(r.0) == Some(cap),
        value_receiver_capacity(r.1) == Some(cap),
{
    crossbeam::channel::bounded(cap)
}

/// `Receiver::capacity` of crossbeam, for values: the capacity that the
/// channel was made with.
#[verifier::external_body]
fn receiver_capacity(receiver: &Receiver<Value>) -> (r: Option<usize>)
    ensures
        r == value_receiver_capacity(*receiver),
{
    receiver.capacity()
}

/// `Sender::capacity` of crossbeam, for values: the capacity that the
/// channel was made with.
#[verifier::external_body]
fn value_sender_capacity(sender: &Sender<Value>) -> (r: Option<usize>)
    ensures
        r == value_channel_capacity(*sender),
{
    sender.capacity()
}

/// `bounded` of crossbeam, for rows: a channel that holds at most `cap`
/// messages, which is the capacity that its sender reports.
#[verifier::external_body]
fn bounded_rows(cap: usize) -> (r: (Sender<Row>, RowReceiver))
    requires
        cap <= MAX_CHANNEL_CAPACITY,
    ensures
        row_channel_capacity(r.0) == Some(cap),
{
    let (s, r) = crossbeam::channel::bounded(cap);
    (s, RowReceiver { receiver: r })
}

/// `unbounded` of crossbeam, for rows: a channel without bound, whose sender
/// reports no capacity.
#[verifier::external_body]
fn unbounded_rows() -> (r: (Sender<Row>, RowReceiver))
    ensures
        row_channel_capacity(r.0) is None,
{
    let (s, r) = crossbeam::channel::unbounded();
    (s, RowReceiver { receiver: r })
}

/// `Sender::capacity` of crossbeam: the capacity that the channel was made
/// with.
#[verifier::external_body]
fn sender_capacity(sender: &Sender<Row>) -> (r: Option<usize>)
    ensures
        r == row_channel_capacity(*sender),
{
    sender.capacity()
}

/// `Sender::send` of crossbeam: blocks while the channel is full, and tells
/// whether the message was taken. It is not taken when every receiver is
/// gone, which no contract can foresee.
#[verifier::external_body]
pub(crate) fn send<T>(sender: &Sender<T>, message: T) -> (sent: bool) {
    sender.send(message).is_ok()
}

/// `Receiver::recv` of crossbeam: blocks until a message comes, and gives
/// none when the channel is empty and every sender is gone.
#[verifier::external_body]
fn recv<T>(receiver: &Receiver<T>) -> (r: Option<T>) {
    receiver.recv().ok()
}

/// `Receiver::recv_timeout` of crossbeam: as `recv`, but gives up when
/// nothing has come after the given time. crossbeam adds the time to the
/// present instant, which overflows for a time beyond what a clock can
/// hold; the bound on the seconds keeps well below that.
#[verifier::external_body]
fn recv_timeout(
    receiver: &RowReceiver,
    seconds: u64,
    nanos: u32,
) -> (r: Result<Row, RecvTimeoutError>)
    requires
        seconds <= i64::MAX / 1000,
        nanos < 1_000_000_000,
{
    receiver.receiver.recv_timeout(std::time::Duration::new(seconds, nanos))
}

/// The receiver inside a `RowReceiver`.
#[verifier::external_body]
fn rows_of(receiver: &RowReceiver) -> (r: &Receiver<Row>) {
    &receiver.receiver
}

/// `<Sender<T> as Clone>::clone` of crossbeam: another handle on the same
/// channel. The clone holds the pointer to the channel that the sender it
/// was made from holds, and nothing else, so the two are one sender to
/// every contract.
#[verifier::external_body]
pub(crate) fn clone_sender<T>(sender: &Sender<T>) -> (r: Sender<T>)
    ensures
        r == *sender,
{
    sender.clone()
}

/// `<Receiver<T> as Clone>::clone` of crossbeam: another handle on the same
/// channel. The clone holds the pointer to the channel that the receiver
/// it was made from holds, and nothing else, so the two are one receiver to
/// every contract.
#[verifier::external_body]
fn clone_receiver<T>(receiver: &Receiver<T>) -> (r: Receiver<T>)
    ensures
        r == *receiver,
{
    receiver.clone()
}

/// `<Receiver<T> as Clone>::clone` of crossbeam, for the receiver of rows.
#[verifier::external_body]
fn clone_row_receiver(r: &RowReceiver) -> RowReceiver {
    RowReceiver { receiver: r.receiver.clone() }
}

/// What a send comes to: success when the message was taken, a send error
/// when the receiver is gone.
pub fn sent(taken: bool) -> (r: CrushResult<()>)
    ensures
        taken ==> r is Ok,
        !taken ==> fails_with(r, ErrorKind::Send, send_message()),
{
    if taken {
        Ok(())
    } else {
        send_error()
    }
}

/// What a receive comes to: the message, or a receive error at the end of
/// the stream.
pub fn received<T>(message: Option<T>) -> (r: CrushResult<T>)
    ensures
        match message {
            Some(m) => r == Ok::<T, CrushError>(m),
            None => fails_with(r, ErrorKind::Recv, recv_message()),
        },
{
    match message {
        Some(m) => Ok(m),
        None => recv_error(),
    }
}

/// The sending end of a value channel.
pub struct ValueSender {
    sender: Sender<Value>,
    black_hole: bool,
}

/// The receiving end of a value channel.
pub struct ValueReceiver {
    receiver: Receiver<Value>,
}

/// The writing end of a stream of rows: over a bounded channel, which blocks
/// a producer that is ahead of its consumer, or over one without bound.
pub enum OutputStream {
    Sync(Sender<Row>),
    Async(Sender<Row>),
}

/// The reading end of a stream of rows, with the schema that every row is
/// held to.
#[derive(Debug)]
pub struct InputStream {
    receiver: RowReceiver,
    types: Vec<ColumnType>,
}

/// Whether the cells are a row of the schema: as many cells as columns, and
/// each cell of the type of its column.
pub open spec fn conforms(schema: Seq<ColumnTypeView>, cells: Seq<ValueView>) -> bool {
    &&& cells.len() == schema.len()
    &&& forall|i: int| 0 <= i < schema.len() ==> (#[trigger] schema[i]).cell_type.is(cells[i])
}

/// Whether column `i` is the first whose cell is not of its type.
pub open spec fn is_first_mismatch(schema: Seq<ColumnTypeView>, cells: Seq<ValueView>, i: int) -> bool {
    &&& 0 <= i < schema.len()
    &&& !schema[i].cell_type.is(cells[i])
    &&& forall|j: int| 0 <= j < i ==> (#[trigger] schema[j]).cell_type.is(cells[j])
}

/// The first column whose cell is not of its type.
pub open spec fn first_mismatch(schema: Seq<ColumnTypeView>, cells: Seq<ValueView>) -> int {
    choose|i: int| is_first_mismatch(schema, cells, i)
}

pub open spec fn wrong_count_message() -> Seq<char> {
    "Wrong number of columns in io"@
}

/// The message for a cell of the wrong type: the name of the column, the
/// type that the column asks for and the type of the cell.
pub open spec fn wrong_type_message(column: ColumnTypeView, cell: ValueView) -> Seq<char> {
    "Wrong cell type in io column "@ + column.name + ", expected "@ + tag_name(column.cell_type) + ", got "@
        + tag_name(cell.value_type())
}

/// What validation makes of a row: the row where it conforms, and a type
/// error that names the fault where it does not.
pub open spec fn validated(schema: Seq<ColumnTypeView>, row: Row, r: CrushResult<Row>) -> bool {
    if row@.len() != schema.len() {
        fails_with(r, ErrorKind::Type, wrong_count_message())
    } else if conforms(schema, row@) {
        r == Ok::<Row, CrushError>(row)
    } else {
        fails_with(
            r,
            ErrorKind::Type,
            wrong_type_message(schema[first_mismatch(schema, row@)], row@[first_mismatch(schema, row@)]),
        )
    }
}

proof fn lemma_first_mismatch(schema: Seq<ColumnTypeView>, cells: Seq<ValueView>, i: int)
    requires
        is_first_mismatch(schema, cells, i),
    ensures
        first_mismatch(schema, cells) == i,
{
    let j = first_mismatch(schema, cells);
    assert(is_first_mismatch(schema, cells, j));
    if j < i {
        assert(schema[j].cell_type.is(cells[j]));
    } else if i < j {
        assert(schema[i].cell_type.is(cells[i]));
    }
}

impl ValueSender {
    /// Whether this sender discards what is sent to it.
    pub closed spec fn is_black_hole(&self) -> bool {
        self.black_hole
    }

    /// The capacity of the channel under the sender.
    pub closed spec fn capacity_spec(&self) -> Option<usize> {
        value_channel_capacity(self.sender)
    }

    /// The number of values that the channel holds before a send blocks.
    pub fn capacity(&self) -> (r: Option<usize>)
        ensures
            r == self.capacity_spec(),
    {
        value_sender_capacity(&self.sender)
    }

    /// Hands a value over. Fails with a send error when the receiver is
    /// gone; a sender that discards never fails.
    pub fn send(&self, cell: Value) -> (r: CrushResult<()>)
        ensures
            self.is_black_hole() ==> r is Ok,
            r is Err ==> fails_with(r, ErrorKind::Send, send_message()),
    {
        if self.black_hole {
            return Ok(());
        }
        sent(send(&self.sender, cell))
    }

    /// Hands over the empty value.
    pub fn empty(&self) -> (r: CrushResult<()>)
        ensures
            self.is_black_hole() ==> r is Ok,
            r is Err ==> fails_with(r, ErrorKind::Send, send_message()),
    {
        self.send(Value::Empty)
    }

    /// Opens a stream of the given schema and hands its reading end over;
    /// what comes back is the writing end.
    pub fn initialize(&self, signature: Vec<ColumnType>) -> (r: CrushResult<OutputStream>)
        ensures
            self.is_black_hole() ==> r is Ok,
            r matches Ok(out) ==> out.capacity_spec() == Some(SYNC_STREAM_CAPACITY),
            r is Err ==> fails_with(r, ErrorKind::Send, send_message()),
    {
        let (output, input) = streams(signature);
        match self.send(Value::TableStream(input)) {
            Ok(_) => Ok(output),
            Err(e) => Err(e),
        }
    }

    /// Another handle on the same channel.
    pub fn duplicate(&self) -> (r: ValueSender)
        ensures
            r == *self,
    {
        ValueSender { sender: clone_sender(&self.sender), black_hole: self.black_hole }
    }
}

impl Clone for ValueSender {
    fn clone(&self) -> (r: ValueSender)
        ensures
            r == *self,
    {
        self.duplicate()
    }
}

impl ValueReceiver {
    /// The capacity of the channel under the receiver.
    pub closed spec fn capacity_spec(&self) -> Option<usize> {
        value_receiver_capacity(self.receiver)
    }

    /// The number of values that the channel holds before a send blocks.
    pub fn capacity(&self) -> (r: Option<usize>)
        ensures
            r == self.capacity_spec(),
    {
        receiver_capacity(&self.receiver)
    }

    /// Takes the value that was handed over. Fails with a receive error when
    /// there is none and the sender is gone.
    pub fn recv(&self) -> (r: CrushResult<Value>)
        ensures
            r is Err ==> fails_with(r, ErrorKind::Recv, recv_message()),
    {
        received(recv(&self.receiver))
    }

    /// Another handle on the same channel: what is received through the one
    /// is not there for the other.
    pub fn duplicate(&self) -> (r: ValueReceiver)
        ensures
            r == *self,
    {
        ValueReceiver { receiver: clone_receiver(&self.receiver) }
    }
}

impl Clone for ValueReceiver {
    fn clone(&self) -> (r: ValueReceiver)
        ensures
            r == *self,
    {
        self.duplicate()
    }
}

impl OutputStream {
    /// The capacity of the channel under the stream.
    pub open spec fn capacity_spec(&self) -> Option<usize> {
        match self {
            OutputStream::Sync(s) => row_channel_capacity(*s),
            OutputStream::Async(s) => row_channel_capacity(*s),
        }
    }

    /// The number of rows that the stream holds before a send blocks; none
    /// for a stream without bound.
    pub fn capacity(&self) -> (r: Option<usize>)
        ensures
            r == self.capacity_spec(),
    {
        match self {
            OutputStream::Sync(s) => sender_capacity(s),
            OutputStream::Async(s) => sender_capacity(s),
        }
    }

    /// Writes a row. Blocks while a bounded stream is full; fails with a
    /// broken pipe when the reader is gone.
    pub fn send(&self, row: Row) -> (r: CrushResult<()>)
        ensures
            r is Err ==> fails_with(r, ErrorKind::Send, send_message()),
    {
        let taken = match self {
            OutputStream::Sync(s) => send(s, row),
            OutputStream::Async(s) => send(s, row),
        };
        sent(taken)
    }
}

impl InputStream {
    /// The schema of the stream.
    pub closed spec fn schema(&self) -> Seq<ColumnTypeView> {
        columns_view(&self.types)
    }

    /// The column types that every row of the stream is held to.
    pub fn types(&self) -> (r: &Vec<ColumnType>)
        ensures
            columns_view(r) == self.schema(),
    {
        &self.types
    }

    /// Another handle on the same stream, with the same schema.
    pub fn duplicate(&self) -> (r: InputStream)
        ensures
            r.schema() == self.schema(),
    {
        InputStream { receiver: clone_row_receiver(&self.receiver), types: clone_columns(&self.types) }
    }

    /// Holds what was received to the schema: a row passes where it has as
    /// many cells as the schema has columns and every cell is of the type of
    /// its column; a failure to receive passes as it is.
    pub fn validate(&self, res: CrushResult<Row>) -> (r: CrushResult<Row>)
        ensures
            match res {
                Ok(row) => validated(self.schema(), row, r),
                Err(e) => r == Err::<Row, CrushError>(e),
            },
    {
        match res {
            Ok(row) => {
                if row.cells.len() != self.types.len() {
                    return type_error("Wrong number of columns in io");
                }
                let mut i: usize = 0;
                while i < self.types.len()
                    invariant
                        i <= self.types.len(),
                        res == Ok::<Row, CrushError>(row),
                        row.cells.len() == self.types.len(),
                        forall|j: int| 0 <= j < i ==> (#[trigger] self.schema()[j]).cell_type.is(row@[j]),
                    decreases self.types.len() - i,
                {
                    assert(self.schema()[i as int] == self.types[i as int]@);
                    assert(row@[i as int] == row.cells[i as int]@);
                    if !self.types[i].cell_type.is(&row.cells[i]) {
                        let expected = self.types[i].cell_type.name();
                        let got = row.cells[i].value_type().name();
                        let message = "Wrong cell type in io column ".to_string().concat(
                            self.types[i].name.as_str(),
                        ).concat(", expected ").concat(expected.as_str()).concat(", got ").concat(got.as_str());
                        proof {
                            lemma_first_mismatch(self.schema(), row@, i as int);
                        }
                        return Err(CrushError { kind: ErrorKind::Type, message, location: None });
                    }
                    i += 1;
                }
                Ok(row)
            },
            Err(e) => Err(e),
        }
    }

    /// The next row of the stream, held to the schema. Every row that comes
    /// out conforms to the schema; at the end of the stream the failure is a
    /// receive error.
    pub fn recv(&self) -> (r: CrushResult<Row>)
        ensures
            r matches Ok(row) ==> conforms(self.schema(), row@),
            r matches Err(e) ==> e.kind == ErrorKind::Recv || e.kind == ErrorKind::Type,
    {
        self.validate(received(recv(rows_of(&self.receiver))))
    }

    /// What a receive with a time limit comes to: a row that conforms to the
    /// schema passes, and a row that does not ends the stream for the reader,
    /// as if the sender were gone.
    pub fn checked(
        &self,
        received: Result<Row, RecvTimeoutError>,
    ) -> (r: Result<Row, RecvTimeoutError>)
        ensures
            match received {
                Ok(row) => if conforms(self.schema(), row@) {
                    r == Ok::<Row, RecvTimeoutError>(row)
                } else {
                    r == Err::<Row, RecvTimeoutError>(RecvTimeoutError::Disconnected)
                },
                Err(e) => r == Err::<Row, RecvTimeoutError>(e),
            },
    {
        match received {
            Ok(row) => match self.validate(Ok(row)) {
                Ok(row) => Ok(row),
                Err(_) => Err(RecvTimeoutError::Disconnected),
            },
            Err(e) => Err(e),
        }
    }

    /// The next row of the stream, held to the schema, if one comes within
    /// the given time. Every row that comes out conforms to the schema.
    pub fn recv_timeout(&self, timeout: Duration) -> (r: Result<Row, RecvTimeoutError>)
        requires
            0 <= timeout.nanos <= i64::MAX * 1_000_000,
        ensures
            r matches Ok(row) ==> conforms(self.schema(), row@),
    {
        let seconds = timeout.nanos / NANOS_PER_SECOND;
        let nanos = timeout.nanos % NANOS_PER_SECOND;
        self.checked(recv_timeout(&self.receiver, seconds as u64, nanos as u32))
    }

    /// What one step of a search for row `idx` comes to, when row `i` was
    /// asked for and `received` came back: the row where `i` is `idx`; the
    /// type error where a row did not conform; the failure of the search
    /// where the stream has ended; and nothing yet otherwise.
    pub fn pick(i: i128, idx: i128, received: CrushResult<Row>) -> (r: Option<CrushResult<Row>>)
        ensures
            match received {
                Ok(row) => if i == idx {
                    r == Some(Ok::<Row, CrushError>(row))
                } else {
                    r is None
                },
                Err(e) => if e.kind == ErrorKind::Type {
                    r == Some(Err::<Row, CrushError>(e))
                } else {
                    r matches Some(x) && fails_with(x, ErrorKind::Generic, "Index out of bounds"@)
                },
            },
    {
        match received {
            Ok(row) => if i == idx {
                Some(Ok(row))
            } else {
                None
            },
            Err(e) => if e.kind == ErrorKind::Type {
                Some(Err(e))
            } else {
                Some(error("Index out of bounds"))
            },
        }
    }

    /// Row `idx` of what is left of the stream: the rows before it are read
    /// and dropped. Fails with "Index out of bounds" where the stream ends
    /// before row `idx` has come, and with the type error of the first row
    /// that does not conform, if one comes up to row `idx`. For an index
    /// below zero the stream is read to its end, or to the first row that
    /// does not conform.
    pub fn get(&self, idx: i128) -> (r: CrushResult<Row>)
        ensures
            r matches Ok(row) ==> idx >= 0 && conforms(self.schema(), row@),
            r matches Err(e) ==> e.kind == ErrorKind::Type || fails_with(
                r,
                ErrorKind::Generic,
                "Index out of bounds"@,
            ),
            idx < 0 ==> r is Err,
    {
        let mut i: i128 = 0;
        while i < i128::MAX
            invariant
                0 <= i,
            decreases i128::MAX - i,
        {
            match InputStream::pick(i, idx, self.recv()) {
                Some(r) => {
                    return r;
                },
                None => {
                    i += 1;
                },
            }
        }
        error("Index out of bounds")
    }
}

impl Clone for InputStream {
    fn clone(&self) -> (r: InputStream)
        ensures
            r.schema() == self.schema(),
    {
        self.duplicate()
    }
}

/// A sender that discards whatever is sent to it.
pub fn black_hole() -> (r: ValueSender)
    ensures
        r.is_black_hole(),
        r.capacity_spec() == Some(VALUE_CHANNEL_CAPACITY),
{
    let (sender, _) = bounded_values(VALUE_CHANNEL_CAPACITY);
    ValueSender { sender, black_hole: true }
}

/// The two ends of a value channel, which holds one value.
pub fn channels() -> (r: (ValueSender, ValueReceiver))
    ensures
        !r.0.is_black_hole(),
        r.0.capacity_spec() == Some(VALUE_CHANNEL_CAPACITY),
        r.1.capacity_spec() == Some(VALUE_CHANNEL_CAPACITY),
{
    let (sender, receiver) = bounded_values(VALUE_CHANNEL_CAPACITY);
    (ValueSender { sender, black_hole: false }, ValueReceiver { receiver })
}

/// The two ends of a stream of the given schema over a bounded channel.
pub fn streams(signature: Vec<ColumnType>) -> (r: (OutputStream, InputStream))
    ensures
        r.0 is Sync,
        r.0.capacity_spec() == Some(SYNC_STREAM_CAPACITY),
        r.1.schema() == columns_view(&signature),
{
    let (output, input) = bounded_rows(SYNC_STREAM_CAPACITY);
    (OutputStream::Sync(output), InputStream { receiver: input, types: signature })
}

/// The two ends of a stream of the given schema over a channel without
/// bound.
pub fn unlimited_streams(signature: Vec<ColumnType>) -> (r: (OutputStream, InputStream))
    ensures
        r.0 is Async,
        r.0.capacity_spec() is None,
        r.1.schema() == columns_view(&signature),
{
    let (output, input) = unbounded_rows();
    (OutputStream::Async(output), InputStream { receiver: input, types: signature })
}

/// A stream without columns that has ended already.
pub fn empty_table_stream() -> (r: Value)
    ensures
        r@ == ValueView::TableStream(Seq::<ColumnTypeView>::empty()),
{
    let signature: Vec<ColumnType> = Vec::new();
    assert(columns_view(&signature) =~= Seq::<ColumnTypeView>::empty());
    let (_, input) = streams(signature);
    Value::TableStream(input)
}

/// The receiving end of a value channel of its own, to which a stream
/// without columns that has ended was handed over.
pub fn empty_channel() -> (r: ValueReceiver)
    ensures
        r.capacity_spec() == Some(VALUE_CHANNEL_CAPACITY),
{
    let (o, i) = channels();
    let _ = o.send(empty_table_stream());
    i
}

/// The reading end of a stream of rows.
pub trait CrushStream {
    /// The schema that every row read is held to.
    spec fn row_schema(&self) -> Seq<ColumnTypeView>;

    fn read(&mut self) -> (r: CrushResult<Row>)
        ensures
            final(self).row_schema() == old(self).row_schema(),
            r matches Ok(row) ==> conforms(old(self).row_schema(), row@),
    ;

    fn read_timeout(&mut self, timeout: Duration) -> (r: Result<Row, RecvTimeoutError>)
        requires
            0 <= timeout.nanos <= i64::MAX * 1_000_000,
        ensures
            final(self).row_schema() == old(self).row_schema(),
            r matches Ok(row) ==> conforms(old(self).row_schema(), row@),
    ;

    fn types(&self) -> (r: &Vec<ColumnType>)
        ensures
            columns_view(r) == self.row_schema(),
    ;
}

impl CrushStream for InputStream {
    closed spec fn row_schema(&self) -> Seq<ColumnTypeView> {
        self.schema()
    }

    fn read(&mut self) -> (r: CrushResult<Row>)
        ensures
            *final(self) == *old(self),
            r matches Err(e) ==> e.kind == ErrorKind::Recv || e.kind == ErrorKind::Type,
    {
        self.recv()
    }

    fn read_timeout(&mut self, timeout: Duration) -> (r: Result<Row, RecvTimeoutError>)
        ensures
            *final(self) == *old(self),
    {
        self.recv_timeout(timeout)
    }

    fn types(&self) -> (r: &Vec<ColumnType>) {
        InputStream::types(self)
    }
}

pub type Stream = Box<dyn CrushStream>;

} // verus!
