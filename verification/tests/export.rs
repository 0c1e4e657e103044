//! Rows in the client's buffer.

use questdb::ingress::{Buffer, ProtocolVersion};
use questdb_sink::{
    append_value, write_job, Appended, BlockTime, Decimal, Entity, EntityChange,
    EntityChangeOperation, EntityType, JobCursor, Progress, Value, WriteError, WriteErrorKind,
    WriteJob,
};
use std::sync::Arc;

fn decimal(text: &str) -> Value {
    Value::BigDecimal(Decimal {
        text: text.to_string(),
        double: text.parse::<f64>().ok().map(f64::to_bits),
    })
}

fn text(value: &str) -> String {
    value.to_string()
}

fn change(
    name: &str,
    id: &str,
    operation: EntityChangeOperation,
    fields: Vec<(&str, Value)>,
) -> EntityChange {
    let mut entity = Entity::new();
    for (field, value) in fields {
        entity.insert(text(field), value);
    }
    EntityChange {
        entity_type: EntityType { name: text(name) },
        id: text(id),
        operation,
        data: Some(Arc::new(entity)),
        block_number: 7,
        block_time: BlockTime { seconds: 1_700_000_000 },
    }
}

fn job(changes: Vec<EntityChange>) -> WriteJob {
    WriteJob { namespace: text("sgd42"), block_number: 7, changes }
}

fn write(buffer: &mut Buffer, prefix: &str, job: &WriteJob) -> Result<u64, WriteError> {
    assert!(job.times_fit());
    let mut cursor = JobCursor::start();
    loop {
        match write_job(buffer, prefix, job, &mut cursor)? {
            Progress::Complete(rows) => return Ok(rows),
            Progress::Double { name, bits } => {
                buffer.column_f64(name, f64::from_bits(bits)).unwrap();
            }
        }
    }
}

fn lines(buffer: &Buffer) -> String {
    String::from_utf8(buffer.as_bytes().to_vec()).unwrap()
}

fn refused(buffer: &mut Buffer, job: &WriteJob) -> WriteErrorKind {
    let error = write(buffer, "", job).unwrap_err();
    assert!(!error.message.is_empty());
    error.kind
}

#[test]
fn row_of_an_insert() {
    let mut buffer = Buffer::new(ProtocolVersion::V1);
    let changes = vec![change(
        "Transfer",
        "0x1",
        EntityChangeOperation::Insert,
        vec![("to", Value::String(text("bob"))), ("from", Value::String(text("al")))],
    )];
    assert_eq!(write(&mut buffer, "graph_", &job(changes)).unwrap(), 1);
    assert_eq!(
        lines(&buffer),
        "graph_sgd42_Transfer,op=insert id=\"0x1\",block_number=7i,from=\"al\",to=\"bob\" 1700000000000000000\n"
    );
}

#[test]
fn row_of_an_overwrite_without_prefix() {
    let mut buffer = Buffer::new(ProtocolVersion::V1);
    let changes = vec![change("Transfer", "x", EntityChangeOperation::Overwrite, vec![])];
    assert_eq!(write(&mut buffer, "", &job(changes)).unwrap(), 1);
    assert_eq!(
        lines(&buffer),
        "sgd42_Transfer,op=overwrite id=\"x\",block_number=7i 1700000000000000000\n"
    );
}

#[test]
fn removal_is_a_tombstone_row() {
    let mut buffer = Buffer::new(ProtocolVersion::V1);
    let mut removal = change(
        "Transfer",
        "x",
        EntityChangeOperation::Remove,
        vec![("to", Value::String(text("bob")))],
    );
    assert_eq!(write(&mut buffer, "", &job(vec![removal.clone()])).unwrap(), 1);
    let expected = "sgd42_Transfer,op=remove id=\"x\",block_number=7i 1700000000000000000\n";
    assert_eq!(lines(&buffer), expected);
    removal.data = None;
    let mut other = Buffer::new(ProtocolVersion::V1);
    assert_eq!(write(&mut other, "", &job(vec![removal])).unwrap(), 1);
    assert_eq!(lines(&other), expected);
}

#[test]
fn each_kind_of_value_has_its_column() {
    let mut buffer = Buffer::new(ProtocolVersion::V1);
    let changes = vec![change(
        "T",
        "x",
        EntityChangeOperation::Insert,
        vec![
            ("a_string", Value::String(text("say \"hi\""))),
            ("b_int", Value::Int(-5)),
            ("c_int8", Value::Int8(i64::MAX)),
            ("d_bool", Value::Bool(true)),
            ("e_bool", Value::Bool(false)),
            ("f_decimal", decimal("12.5")),
            ("g_decimal", decimal("1e400")),
            ("h_decimal", decimal("not a number")),
            ("i_bigint", Value::BigInt(text("123456789012345678901234567890"))),
            ("j_bytes", Value::Bytes(text("0xbeef"))),
            ("k_timestamp", Value::Timestamp(text("1700000000000000"))),
            ("l_list", Value::List(vec![text("Int(1)"), text("Int(2)")])),
            ("m_null", Value::Null),
        ],
    )];
    assert_eq!(write(&mut buffer, "", &job(changes)).unwrap(), 1);
    assert_eq!(
        lines(&buffer),
        "sgd42_T,op=insert id=\"x\",block_number=7i,a_string=\"say \\\"hi\\\"\",b_int=-5i,\
         c_int8=9223372036854775807i,d_bool=t,e_bool=f,f_decimal=12.5,g_decimal=\"1e400\",\
         h_decimal=\"not a number\",i_bigint=\"123456789012345678901234567890\",\
         j_bytes=\"0xbeef\",k_timestamp=\"1700000000000000\",l_list=\"[Int(1), Int(2)]\" \
         1700000000000000000\n"
    );
}

#[test]
fn meta_columns_are_not_repeated() {
    let mut buffer = Buffer::new(ProtocolVersion::V1);
    let changes = vec![change(
        "T",
        "x",
        EntityChangeOperation::Insert,
        vec![
            ("id", Value::String(text("other"))),
            ("block_number", Value::Int(99)),
            ("ids", Value::Int(1)),
        ],
    )];
    assert_eq!(write(&mut buffer, "", &job(changes)).unwrap(), 1);
    assert_eq!(
        lines(&buffer),
        "sgd42_T,op=insert id=\"x\",block_number=7i,ids=1i 1700000000000000000\n"
    );
}

#[test]
fn one_row_for_each_change_in_their_order() {
    let mut buffer = Buffer::new(ProtocolVersion::V1);
    let changes = vec![
        change("A", "1", EntityChangeOperation::Insert, vec![("v", decimal("0.5"))]),
        change("B", "2", EntityChangeOperation::Remove, vec![]),
        change(
            "A",
            "3",
            EntityChangeOperation::Overwrite,
            vec![("v", decimal("1")), ("w", decimal("2")), ("z", Value::Int(3))],
        ),
    ];
    assert_eq!(write(&mut buffer, "", &job(changes)).unwrap(), 3);
    assert_eq!(buffer.row_count(), 3);
    assert_eq!(
        lines(&buffer),
        "sgd42_A,op=insert id=\"1\",block_number=7i,v=0.5 1700000000000000000\n\
         sgd42_B,op=remove id=\"2\",block_number=7i 1700000000000000000\n\
         sgd42_A,op=overwrite id=\"3\",block_number=7i,v=1.0,w=2.0,z=3i 1700000000000000000\n"
    );
}

#[test]
fn rows_follow_those_already_in_the_buffer() {
    let mut buffer = Buffer::new(ProtocolVersion::V2);
    let changes = vec![change("A", "1", EntityChangeOperation::Remove, vec![])];
    assert_eq!(write(&mut buffer, "", &job(changes.clone())).unwrap(), 1);
    assert_eq!(write(&mut buffer, "p_", &job(changes)).unwrap(), 1);
    assert_eq!(
        lines(&buffer),
        "sgd42_A,op=remove id=\"1\",block_number=7i 1700000000000000000n\n\
         p_sgd42_A,op=remove id=\"1\",block_number=7i 1700000000000000000n\n"
    );
    assert!(buffer.check_can_flush().is_ok());
}

#[test]
fn job_without_changes_writes_nothing() {
    let mut buffer = Buffer::new(ProtocolVersion::V1);
    assert_eq!(write(&mut buffer, "", &job(vec![])).unwrap(), 0);
    assert!(buffer.is_empty());
}

#[test]
fn writing_pauses_before_a_double() {
    let mut buffer = Buffer::new(ProtocolVersion::V1);
    let work = job(vec![change(
        "A",
        "1",
        EntityChangeOperation::Insert,
        vec![("a", Value::Int(1)), ("b", decimal("-0.25")), ("c", Value::Int(2))],
    )]);
    let mut cursor = JobCursor::start();
    match write_job(&mut buffer, "", &work, &mut cursor).unwrap() {
        Progress::Double { name, bits } => {
            assert_eq!(name, "b");
            assert_eq!(f64::from_bits(bits), -0.25);
        }
        Progress::Complete(_) => panic!("expected a double"),
    }
    assert_eq!(lines(&buffer), "sgd42_A,op=insert id=\"1\",block_number=7i,a=1i");
    assert!(matches!(
        write_job(&mut buffer, "", &work, &mut cursor).unwrap(),
        Progress::Complete(1)
    ));
    assert_eq!(
        lines(&buffer),
        "sgd42_A,op=insert id=\"1\",block_number=7i,a=1i,c=2i 1700000000000000000\n"
    );
}

#[test]
fn bad_table_names_are_refused() {
    for name in ["a/b", "a?b", "x.", "a..b", "\u{feff}", "a\u{1}b"] {
        let mut buffer = Buffer::new(ProtocolVersion::V1);
        let work = job(vec![change(name, "1", EntityChangeOperation::Remove, vec![])]);
        assert_eq!(refused(&mut buffer, &work), WriteErrorKind::InvalidName);
        assert!(buffer.is_empty());
    }
}

#[test]
fn dots_and_dashes_inside_table_names_are_taken() {
    let mut buffer = Buffer::new(ProtocolVersion::V1);
    let work = job(vec![change("a.b-c", "1", EntityChangeOperation::Remove, vec![])]);
    assert_eq!(write(&mut buffer, "", &work).unwrap(), 1);
    // A trailing dot passes if the name has characters of more than one byte.
    let work = job(vec![change("\u{e9}.", "1", EntityChangeOperation::Remove, vec![])]);
    assert_eq!(write(&mut buffer, "", &work).unwrap(), 1);
}

#[test]
fn bad_column_names_are_refused_in_the_middle_of_a_row() {
    for name in ["a.b", "a-b", "a,b", ""] {
        let mut buffer = Buffer::new(ProtocolVersion::V1);
        let work = job(vec![change(
            "A",
            "1",
            EntityChangeOperation::Insert,
            vec![(name, Value::Int(1)), ("!ok", Value::Int(0))],
        )]);
        assert_eq!(refused(&mut buffer, &work), WriteErrorKind::InvalidName);
        assert!(lines(&buffer).starts_with("sgd42_A,op=insert id=\"1\",block_number=7i"));
        assert_eq!(buffer.row_count(), 0);
    }
}

#[test]
fn long_names_are_refused() {
    let mut buffer = Buffer::with_max_name_len(ProtocolVersion::V1, 12);
    let work = job(vec![change("Trans", "1", EntityChangeOperation::Remove, vec![])]);
    assert_eq!(write(&mut buffer, "", &work).unwrap(), 1);
    let work = job(vec![change("Transfer", "1", EntityChangeOperation::Remove, vec![])]);
    assert_eq!(refused(&mut buffer, &work), WriteErrorKind::InvalidName);
    let mut short = Buffer::with_max_name_len(ProtocolVersion::V1, 11);
    let work = job(vec![change("Trans", "1", EntityChangeOperation::Remove, vec![])]);
    assert_eq!(refused(&mut short, &work), WriteErrorKind::InvalidName);
    assert_eq!(lines(&short), "sgd42_Trans,op=remove id=\"1\"");
}

#[test]
fn negative_times_are_refused() {
    let mut buffer = Buffer::new(ProtocolVersion::V1);
    let mut early = change("A", "1", EntityChangeOperation::Remove, vec![]);
    early.block_time = BlockTime { seconds: -1 };
    assert_eq!(refused(&mut buffer, &job(vec![early])), WriteErrorKind::InvalidTimestamp);
}

#[test]
fn rows_do_not_begin_inside_rows() {
    let mut buffer = Buffer::new(ProtocolVersion::V1);
    buffer.table("open").unwrap();
    let work = job(vec![change("A", "1", EntityChangeOperation::Remove, vec![])]);
    assert_eq!(refused(&mut buffer, &work), WriteErrorKind::InvalidApiCall);
    assert_eq!(lines(&buffer), "open");
}

#[test]
fn values_need_an_open_row() {
    let mut buffer = Buffer::new(ProtocolVersion::V1);
    let error = append_value(&mut buffer, "a", &Value::Int(1)).err().unwrap();
    assert_eq!(error.kind, WriteErrorKind::InvalidApiCall);
    assert!(matches!(append_value(&mut buffer, "a", &Value::Null), Ok(Appended::Done)));
    match append_value(&mut buffer, "a", &decimal("1.5")) {
        Ok(Appended::Double(bits)) => assert_eq!(f64::from_bits(bits), 1.5),
        _ => panic!("expected a double"),
    }
    assert!(buffer.is_empty());
    buffer.table("t").unwrap();
    assert!(matches!(append_value(&mut buffer, "a", &Value::Bool(true)), Ok(Appended::Done)));
    assert_eq!(lines(&buffer), "t a=t");
}

#[test]
fn times_out_of_range_are_found() {
    let mut late = change("A", "1", EntityChangeOperation::Remove, vec![]);
    late.block_time = BlockTime { seconds: i64::MAX };
    let good = change("A", "2", EntityChangeOperation::Remove, vec![]);
    assert!(job(vec![good.clone()]).times_fit());
    assert!(!job(vec![good, late]).times_fit());
}

#[test]
fn refusals_are_handed_on_as_the_client_words_them() {
    let fields = |name: &'static str| vec![(name, Value::Int(1))];
    let message = |buffer: &mut Buffer, name: &str, fields: Vec<(&str, Value)>| {
        let work = job(vec![change(name, "1", EntityChangeOperation::Insert, fields)]);
        write(buffer, "", &work).unwrap_err().message
    };
    let mut buffer = Buffer::with_max_name_len(ProtocolVersion::V1, 12);
    assert_eq!(
        message(&mut buffer, "A.", vec![]),
        "Bad string \"sgd42_A.\": Found invalid dot `.` at position 7."
    );
    assert_eq!(
        message(&mut buffer, "Transfer", vec![]),
        "Bad name: \"sgd42_Transfer\": Too long (max 12 characters)"
    );
    assert_eq!(
        message(&mut buffer, "A", fields("x-y")),
        "Bad string \"x-y\": Column names can't contain a '-' character, which was found at byte position 1."
    );
    assert_eq!(
        message(&mut buffer, "A", vec![]),
        "State error: Bad call to `table`, should have called `column` or `at` instead."
    );
    let mut early = change("A", "1", EntityChangeOperation::Remove, vec![]);
    early.block_time = BlockTime { seconds: -1 };
    let mut buffer = Buffer::new(ProtocolVersion::V2);
    assert_eq!(
        write(&mut buffer, "", &job(vec![early])).unwrap_err().message,
        "Timestamp -1000000000 is negative. It must be >= 0."
    );
}

#[test]
fn values_hand_the_refusal_of_their_column_on() {
    let values = vec![
        Value::String(text("s")),
        Value::Int(1),
        Value::Int8(2),
        Value::Bool(true),
        decimal("1e400"),
        Value::BigInt(text("3")),
        Value::Bytes(text("0x")),
        Value::Timestamp(text("4")),
        Value::List(vec![]),
    ];
    for value in values {
        let mut buffer = Buffer::new(ProtocolVersion::V1);
        let error = append_value(&mut buffer, "a", &value).err().unwrap();
        assert_eq!(
            error.message,
            "State error: Bad call to `column`, should have called `table` instead."
        );
        let error = append_value(&mut buffer, "", &value).err().unwrap();
        assert_eq!(error.kind, WriteErrorKind::InvalidName);
        assert_eq!(error.message, "Column names must have a non-zero length.");
    }
}

#[test]
fn symbols_hand_their_refusal_on() {
    let mut buffer = Buffer::with_max_name_len(ProtocolVersion::V1, 1);
    let mut work = job(vec![change("", "1", EntityChangeOperation::Remove, vec![])]);
    work.namespace = text("");
    let error = write(&mut buffer, "", &work).unwrap_err();
    assert_eq!(error.kind, WriteErrorKind::InvalidName);
    assert_eq!(error.message, "Bad name: \"op\": Too long (max 1 characters)");
    assert_eq!(lines(&buffer), "_");
}
