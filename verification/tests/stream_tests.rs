use crush::errors::{
    argument_error, error, lookup_error, mandate, recv_error, send_error, type_error, CrushError, CrushResult,
    ErrorKind, Location,
};
use crush::stream::{
    black_hole, channels, empty_channel, empty_table_stream, received, sent, streams, unlimited_streams,
    CrushStream, InputStream, OutputStream, Stream,
};
use crush::value::{ColumnType, Duration, Row, Struct, Value, ValueType};

fn schema() -> Vec<ColumnType> {
    vec![
        ColumnType { name: "n".to_string(), cell_type: ValueType::Integer },
        ColumnType { name: "s".to_string(), cell_type: ValueType::Text },
    ]
}

fn row(n: i128, s: &str) -> Row {
    Row::new(vec![Value::Integer(n), Value::Text(s.to_string())])
}

#[test]
fn rows_come_out_in_the_order_they_went_in() {
    let (output, input) = streams(schema());
    for i in 0..10 {
        output.send(row(i, "x")).unwrap();
    }
    drop(output);
    for i in 0..10 {
        let r = input.recv().unwrap();
        assert!(matches!(r.cells()[0], Value::Integer(n) if n == i));
    }
    let e = input.recv().unwrap_err();
    assert_eq!((e.kind, e.message.as_str()), (ErrorKind::Recv, "End of stream"));
}

#[test]
fn type_safety_of_streams() {
    let (output, input) = streams(schema());
    output.send(row(1, "a")).unwrap();
    output.send(Row::new(vec![Value::Integer(1)])).unwrap();
    output.send(Row::new(vec![Value::Integer(1), Value::Integer(2)])).unwrap();
    output.send(Row::new(vec![Value::Bool(true), Value::Integer(2)])).unwrap();
    output.send(row(2, "b")).unwrap();
    assert!(input.recv().is_ok());
    let e = input.recv().unwrap_err();
    assert_eq!((e.kind, e.message.as_str()), (ErrorKind::Type, "Wrong number of columns in io"));
    let e = input.recv().unwrap_err();
    assert_eq!(
        (e.kind, e.message.as_str()),
        (ErrorKind::Type, "Wrong cell type in io column s, expected text, got integer")
    );
    let e = input.recv().unwrap_err();
    assert_eq!(e.message, "Wrong cell type in io column n, expected integer, got bool");
    assert!(input.recv().is_ok());
}

#[test]
fn validate_passes_failures_on() {
    let (_output, input) = streams(schema());
    let e = input.validate(error("before")).unwrap_err();
    assert_eq!(e.message, "before");
    assert!(input.validate(Ok(row(1, "a"))).is_ok());
    assert!(input.validate(Ok(Row::new(vec![]))).is_err());
}

#[test]
fn get_drops_the_rows_before_the_index() {
    let (output, input) = streams(schema());
    for i in 0..5 {
        output.send(row(i, "x")).unwrap();
    }
    drop(output);
    assert!(matches!(input.get(2).unwrap().cells()[0], Value::Integer(2)));
    assert!(matches!(input.get(0).unwrap().cells()[0], Value::Integer(3)));
    let e = input.get(1).unwrap_err();
    assert_eq!((e.kind, e.message.as_str()), (ErrorKind::Generic, "Index out of bounds"));
    assert!(input.get(-1).is_err());
}

#[test]
fn pick_takes_the_row_at_the_index() {
    assert!(InputStream::pick(0, 1, Ok(row(1, "a"))).is_none());
    assert!(matches!(InputStream::pick(1, 1, Ok(row(1, "a"))), Some(Ok(_))));
    let r = InputStream::pick(0, 1, error("closed"));
    assert_eq!(r.unwrap().unwrap_err().message, "Index out of bounds");
    let r = InputStream::pick(0, 1, recv_error());
    assert_eq!(r.unwrap().unwrap_err().message, "Index out of bounds");
    let r = InputStream::pick(0, 1, type_error("bad row"));
    let e = r.unwrap().unwrap_err();
    assert_eq!((e.kind, e.message.as_str()), (ErrorKind::Type, "bad row"));
}

#[test]
fn get_reports_a_row_that_does_not_conform() {
    let (output, input) = streams(schema());
    output.send(row(0, "a")).unwrap();
    output.send(Row::new(vec![Value::Integer(1)])).unwrap();
    output.send(row(2, "c")).unwrap();
    drop(output);
    let e = input.get(2).unwrap_err();
    assert_eq!((e.kind, e.message.as_str()), (ErrorKind::Type, "Wrong number of columns in io"));
    // the row after the bad one is still there
    assert!(matches!(input.get(0).unwrap().cells()[0], Value::Integer(2)));
}

#[test]
fn get_below_zero_reads_to_the_end() {
    let (output, input) = streams(schema());
    for i in 0..3 {
        output.send(row(i, "x")).unwrap();
    }
    drop(output);
    let e = input.get(-1).unwrap_err();
    assert_eq!((e.kind, e.message.as_str()), (ErrorKind::Generic, "Index out of bounds"));
    assert_eq!(input.recv().unwrap_err().kind, ErrorKind::Recv);
}

#[test]
fn backpressure() {
    let (output, input) = streams(schema());
    assert!(matches!(output, OutputStream::Sync(_)));
    assert_eq!(output.capacity(), Some(128));
    // the channel takes 128 rows without a reader
    for i in 0..128 {
        output.send(row(i, "x")).unwrap();
    }
    assert!(matches!(input.recv().unwrap().cells()[0], Value::Integer(0)));
    output.send(row(128, "x")).unwrap();
    let (unlimited, _input) = unlimited_streams(schema());
    assert!(matches!(unlimited, OutputStream::Async(_)));
    assert_eq!(unlimited.capacity(), None);
    for i in 0..1000 {
        unlimited.send(row(i, "x")).unwrap();
    }
}

#[test]
fn send_fails_when_the_reader_is_gone() {
    let (output, input) = streams(schema());
    drop(input);
    let e = output.send(row(1, "a")).unwrap_err();
    assert_eq!((e.kind, e.message.as_str()), (ErrorKind::Send, "Broken pipe"));
    let (sender, receiver) = channels();
    drop(receiver);
    assert_eq!(sender.send(Value::Empty).unwrap_err().kind, ErrorKind::Send);
    assert!(sender.initialize(schema()).is_err());
}

#[test]
fn value_channel_hands_over_one_value() {
    let (sender, receiver) = channels();
    assert_eq!(sender.capacity(), Some(1));
    assert_eq!(receiver.capacity(), Some(1));
    assert_eq!(receiver.duplicate().capacity(), Some(1));
    sender.send(Value::Integer(4)).unwrap();
    assert!(matches!(receiver.recv(), Ok(Value::Integer(4))));
    sender.clone().empty().unwrap();
    assert!(matches!(receiver.clone().recv(), Ok(Value::Empty)));
    drop(sender);
    let e = receiver.recv().unwrap_err();
    assert_eq!((e.kind, e.message.as_str()), (ErrorKind::Recv, "End of stream"));
}

#[test]
fn initialize_hands_over_the_reading_end() {
    let (sender, receiver) = channels();
    let output = sender.initialize(schema()).unwrap();
    assert_eq!(output.capacity(), Some(128));
    output.send(row(1, "a")).unwrap();
    match receiver.recv().unwrap() {
        Value::TableStream(input) => {
            assert_eq!(input.types().len(), 2);
            assert!(input.recv().is_ok());
        }
        other => panic!("no stream: {:?}", other),
    }
}

#[test]
fn black_hole_takes_everything() {
    let hole = black_hole();
    for i in 0..10 {
        assert!(hole.send(Value::Integer(i)).is_ok());
    }
    assert!(hole.empty().is_ok());
    assert!(hole.initialize(schema()).is_ok());
    assert!(hole.clone().send(Value::Empty).is_ok());
}

#[test]
fn empty_channel_holds_an_ended_stream() {
    let receiver = empty_channel();
    assert_eq!(receiver.capacity(), Some(1));
    match receiver.recv().unwrap() {
        Value::TableStream(input) => {
            assert!(input.types().is_empty());
            assert!(input.recv().is_err());
        }
        other => panic!("no stream: {:?}", other),
    }
    assert!(matches!(empty_table_stream(), Value::TableStream(_)));
}

#[test]
fn recv_timeout_gives_up() {
    let (output, input) = streams(schema());
    let r = input.recv_timeout(Duration { nanos: 1_000_000 });
    assert_eq!(r.unwrap_err(), crossbeam::channel::RecvTimeoutError::Timeout);
    output.send(row(1, "a")).unwrap();
    assert!(input.recv_timeout(Duration { nanos: 1_000_000 }).is_ok());
    // a row that does not conform ends the stream for the reader
    output.send(Row::new(vec![Value::Integer(1)])).unwrap();
    let r = input.recv_timeout(Duration { nanos: 1_000_000 });
    assert_eq!(r.unwrap_err(), crossbeam::channel::RecvTimeoutError::Disconnected);
    drop(output);
    let r = input.recv_timeout(Duration { nanos: 2_000_000_000 });
    assert_eq!(r.unwrap_err(), crossbeam::channel::RecvTimeoutError::Disconnected);
    assert!(input.checked(Ok(row(1, "a"))).is_ok());
    assert_eq!(
        input.checked(Err(crossbeam::channel::RecvTimeoutError::Timeout)).unwrap_err(),
        crossbeam::channel::RecvTimeoutError::Timeout
    );
}

#[test]
fn a_stream_is_read_through_the_trait() {
    let (output, input) = streams(schema());
    output.send(row(1, "a")).unwrap();
    drop(output);
    let mut stream: Stream = Box::new(input);
    assert_eq!(stream.types().len(), 2);
    assert!(stream.read().is_ok());
    assert!(stream.read().is_err());
    assert!(stream.read_timeout(Duration { nanos: 1_000 }).is_err());
}

#[test]
fn sent_and_received() {
    assert!(sent(true).is_ok());
    assert_eq!(sent(false).unwrap_err().kind, ErrorKind::Send);
    assert_eq!(received(Some(3)).unwrap(), 3);
    assert_eq!(received::<i32>(None).unwrap_err().kind, ErrorKind::Recv);
}

#[test]
fn error_constructors() {
    let check = |r: CrushResult<()>, kind: ErrorKind, message: &str| {
        let e = r.unwrap_err();
        assert_eq!(e.kind(), kind);
        assert_eq!(e.message(), message);
    };
    check(error("a"), ErrorKind::Generic, "a");
    check(argument_error("b"), ErrorKind::Argument, "b");
    check(type_error("c"), ErrorKind::Type, "c");
    check(lookup_error("d"), ErrorKind::Lookup, "d");
    check(send_error(), ErrorKind::Send, "Broken pipe");
    check(recv_error(), ErrorKind::Recv, "End of stream");
    assert_eq!(mandate(Some(1), "none").unwrap(), 1);
    check(mandate(None, "none"), ErrorKind::Generic, "none");
    let e = CrushError::new(ErrorKind::Io, "disk");
    assert_eq!(e.kind, ErrorKind::Io);
    assert_eq!(e.location, None);
    let e = e.with_location(Location { start: 3, end: 7 });
    assert_eq!(e.location, Some(Location { start: 3, end: 7 }));
    assert_eq!(e.message, "disk");
    let parse = CrushError::new(ErrorKind::Parse, "syntax");
    assert_eq!(parse.kind(), ErrorKind::Parse);
}

#[test]
fn value_types() {
    let list = Value::List(ValueType::Integer, vec![Value::Integer(1)]);
    assert!(ValueType::List(Box::new(ValueType::Integer)).is(&list));
    assert!(!ValueType::List(Box::new(ValueType::Text)).is(&list));
    assert!(!ValueType::Integer.is(&list));
    assert!(ValueType::Integer.is(&Value::Integer(1)));
    assert!(!ValueType::Integer.is(&Value::Text("1".to_string())));
    let table = Value::Table(schema(), vec![]);
    assert!(ValueType::Table(schema()).is(&table));
    let mut renamed = schema();
    renamed[1].name = "t".to_string();
    assert!(!ValueType::Table(renamed).is(&table));
    let mut retyped = schema();
    retyped[1].cell_type = ValueType::Integer;
    assert!(!ValueType::Table(retyped).is(&table));
    assert!(!ValueType::Table(vec![]).is(&table));
    assert!(!ValueType::Row(schema()).is(&table));
    assert!(ValueType::Struct.is(&Value::Struct(Struct::new(vec![], None))));
    assert!(ValueType::Table(schema()).type_eq(&table.value_type()));
    assert!(ValueType::Scope.is(&Value::Scope(0)));
}

#[test]
fn values_are_copied_in_depth() {
    let inner = Struct::new(vec![("a".to_string(), Value::Integer(1))], None);
    let outer = Struct::new(vec![("b".to_string(), Value::Bool(false))], Some(Box::new(inner)));
    let v = Value::Dict(
        ValueType::Text,
        ValueType::Struct,
        vec![(Value::Text("k".to_string()), Value::Struct(outer))],
    );
    match v.clone() {
        Value::Dict(ValueType::Text, ValueType::Struct, entries) => match &entries[0].1 {
            Value::Struct(s) => {
                assert_eq!(s.fields[0].0, "b");
                assert_eq!(s.parent.as_ref().unwrap().fields[0].0, "a");
            }
            other => panic!("no struct: {:?}", other),
        },
        other => panic!("no dict: {:?}", other),
    }
    assert!(Value::Text("a".to_string()).scalar_eq(&Value::Text("a".to_string())));
    assert!(!Value::Text("a".to_string()).scalar_eq(&Value::Text("b".to_string())));
    assert!(!Value::Integer(1).scalar_eq(&Value::Bool(true)));
    assert!(!Value::Scope(1).scalar_eq(&Value::Scope(1)));
    assert!(Value::Field(vec!["a".to_string()]).scalar_eq(&Value::Field(vec!["a".to_string()])));
}

#[test]
fn containers_hold_values_of_their_types_only() {
    let mut list = Value::List(ValueType::Integer, vec![]);
    list.append(Value::Integer(1)).unwrap();
    list.append(Value::Integer(2)).unwrap();
    let e = list.append(Value::Text("three".to_string())).unwrap_err();
    assert_eq!((e.kind, e.message.as_str()), (ErrorKind::Type, "Wrong element type"));
    assert!(matches!(&list, Value::List(_, cells) if cells.len() == 2));
    assert_eq!(Value::Integer(1).append(Value::Integer(2)).unwrap_err().message, "Expected a list");

    let mut dict = Value::Dict(ValueType::Text, ValueType::Integer, vec![]);
    dict.insert(Value::Text("a".to_string()), Value::Integer(1)).unwrap();
    dict.insert(Value::Text("b".to_string()), Value::Integer(2)).unwrap();
    dict.insert(Value::Text("a".to_string()), Value::Integer(3)).unwrap();
    match &dict {
        Value::Dict(_, _, entries) => {
            assert_eq!(entries.len(), 2);
            assert!(matches!(&entries[0], (Value::Text(k), Value::Integer(3)) if k == "a"));
            assert!(matches!(&entries[1], (Value::Text(k), Value::Integer(2)) if k == "b"));
        }
        other => panic!("no dict: {:?}", other),
    }
    assert_eq!(dict.insert(Value::Integer(1), Value::Integer(1)).unwrap_err().message, "Wrong key type");
    assert_eq!(
        dict.insert(Value::Text("c".to_string()), Value::Bool(true)).unwrap_err().message,
        "Wrong value type"
    );
    let mut scopes = Value::Dict(ValueType::Scope, ValueType::Integer, vec![]);
    assert_eq!(scopes.insert(Value::Scope(0), Value::Integer(1)).unwrap_err().message, "Wrong key type");
    assert_eq!(list.insert(Value::Integer(1), Value::Integer(1)).unwrap_err().message, "Expected a dict");
}

#[test]
fn types_have_names() {
    assert_eq!(ValueType::Integer.name(), "integer");
    assert_eq!(ValueType::List(Box::new(ValueType::Text)).name(), "list");
    assert_eq!(ValueType::TableStream(vec![]).name(), "table_stream");
    assert_eq!(Value::Struct(Struct::new(vec![], None)).value_type().name(), "struct");
    assert_eq!(Value::Empty.value_type().name(), "empty");
}
