//! The rows that changes make, and how many of their entries a buffer records.

use crate::entity::{finite_bits, BlockTime, Value};
use crate::ilp::{recorded, refusal, refusal_message, ColumnValue, Entry, WriteError};
use crate::sink::{operation_text, EntityChange, EntityChangeOperation};
use crate::text::bracketed;
use vstd::prelude::*;

verus! {

/// The table that changes of an entity type go to.
pub open spec fn table_name(
    prefix: Seq<char>,
    namespace: Seq<char>,
    entity_type: Seq<char>,
) -> Seq<char> {
    prefix + namespace + seq!['_'] + entity_type
}

/// The column value of an entity field; `None` for a field that is left out.
pub open spec fn value_column(value: Value) -> Option<ColumnValue> {
    match value {
        Value::String(text) => Some(ColumnValue::Str(text@)),
        Value::Int(number) => Some(ColumnValue::Long(number as i64)),
        Value::Int8(number) => Some(ColumnValue::Long(number)),
        Value::Timestamp(text) => Some(ColumnValue::Str(text@)),
        Value::BigDecimal(decimal) => match decimal.double {
            Some(bits) => if finite_bits(bits) {
                Some(ColumnValue::Double(bits))
            } else {
                Some(ColumnValue::Str(decimal.text@))
            },
            None => Some(ColumnValue::Str(decimal.text@)),
        },
        Value::Bool(flag) => Some(ColumnValue::Bool(flag)),
        Value::List(items) => Some(ColumnValue::Str(bracketed(items@))),
        Value::Bytes(text) => Some(ColumnValue::Str(text@)),
        Value::BigInt(text) => Some(ColumnValue::Str(text@)),
        Value::Null => None,
    }
}

/// Whether every row has a column of this name of its own, so that a field does not make one.
pub open spec fn is_meta_column(name: Seq<char>) -> bool {
    name == "id"@ || name == "block_number"@
}

/// The columns that the fields of an entity make, in the order of the fields.
pub open spec fn field_columns(fields: Seq<(String, Value)>) -> Seq<Entry>
    decreases fields.len(),
{
    if fields.len() == 0 {
        Seq::empty()
    } else {
        let rest = field_columns(fields.skip(1));
        match value_column(fields[0].1) {
            Some(column) if !is_meta_column(fields[0].0@) => seq![
                Entry::Column(fields[0].0@, column),
            ] + rest,
            _ => rest,
        }
    }
}

/// The fields that a change exports: all of the entity's, and none for a removal.
pub open spec fn exported_fields(change: EntityChange) -> Seq<(String, Value)> {
    match change.data {
        Some(entity) if change.operation != EntityChangeOperation::Remove => entity.fields(),
        _ => Seq::empty(),
    }
}

/// What every row begins with: table, operation, id and block number.
pub open spec fn row_head(prefix: Seq<char>, namespace: Seq<char>, change: EntityChange) -> Seq<Entry> {
    seq![
        Entry::Table(table_name(prefix, namespace, change.entity_type@)),
        Entry::Symbol("op"@, operation_text(change.operation)),
        Entry::Column("id"@, ColumnValue::Str(change.id@)),
        Entry::Column("block_number"@, ColumnValue::Long(change.block_number as i64)),
    ]
}

/// The end of a row: the block's time.
pub open spec fn row_end(time: BlockTime) -> Seq<Entry> {
    seq![Entry::At(time.nanos() as i64)]
}

/// The row of a change.
pub open spec fn row_entries(prefix: Seq<char>, namespace: Seq<char>, change: EntityChange) -> Seq<Entry> {
    row_head(prefix, namespace, change) + field_columns(exported_fields(change)) + row_end(
        change.block_time,
    )
}

/// The rows of changes, one after the other.
pub open spec fn rows_entries(
    prefix: Seq<char>,
    namespace: Seq<char>,
    changes: Seq<EntityChange>,
) -> Seq<Entry>
    decreases changes.len(),
{
    if changes.len() == 0 {
        Seq::empty()
    } else {
        row_entries(prefix, namespace, changes[0]) + rows_entries(
            prefix,
            namespace,
            changes.skip(1),
        )
    }
}

/// Whether the entry is a column that holds a double.
pub open spec fn is_double(entry: Entry) -> bool {
    entry matches Entry::Column(_, ColumnValue::Double(_))
}

/// How many of the entries a buffer that holds `before` records, one after the other, until the
/// first that it refuses or that holds a double.
pub open spec fn recorded_count(before: Seq<Entry>, limit: nat, todo: Seq<Entry>) -> nat
    decreases todo.len(),
{
    if todo.len() == 0 || is_double(todo[0]) || refusal(before, limit, todo[0]) is Some {
        0
    } else {
        1 + recorded_count(before.push(todo[0]), limit, todo.skip(1))
    }
}

/// `recorded_count` counts through the first part before it counts in the second.
pub(crate) proof fn lemma_count_append(before: Seq<Entry>, limit: nat, first: Seq<Entry>, second: Seq<Entry>)
    ensures
        recorded_count(before, limit, first) <= first.len(),
        recorded_count(before, limit, first + second) == if recorded_count(before, limit, first)
            == first.len() {
            first.len() + recorded_count(before + first, limit, second)
        } else {
            recorded_count(before, limit, first)
        },
    decreases first.len(),
{
    let both = first + second;
    if first.len() == 0 {
        assert(both =~= second);
        assert(before + first =~= before);
    } else {
        assert(both[0] == first[0]);
        assert(both.skip(1) =~= first.skip(1) + second);
        assert(before.push(first[0]) + first.skip(1) =~= before + first);
        lemma_count_append(before.push(first[0]), limit, first.skip(1), second);
    }
}

/// Whether a buffer that held `before` refuses, with `error`, the first of the entries that it does
/// not record.
pub open spec fn refused(before: Seq<Entry>, limit: nat, todo: Seq<Entry>, error: WriteError) -> bool {
    let count = recorded_count(before, limit, todo);
    &&& count < todo.len()
    &&& !is_double(todo[count as int])
    &&& refusal(before + todo.take(count as int), limit, todo[count as int]) == Some(error.kind)
    &&& error.message@ == refusal_message(
        before + todo.take(count as int),
        limit,
        todo[count as int],
    )
}

/// Whether entries without doubles were recorded up to the first that the buffer refuses, and that
/// refusal, if there is one, was returned. `after` holds the entries of the buffer afterwards.
pub open spec fn recorded_all(
    before: Seq<Entry>,
    after: Seq<Entry>,
    limit: nat,
    todo: Seq<Entry>,
    result: Result<(), WriteError>,
) -> bool {
    let count = recorded_count(before, limit, todo);
    &&& after == before + todo.take(count as int)
    &&& match result {
        Ok(_) => count == todo.len(),
        Err(error) => refused(before, limit, todo, error),
    }
}

/// One more recorded entry.
pub(crate) proof fn lemma_recorded_one(
    start: Seq<Entry>,
    before: Seq<Entry>,
    after: Seq<Entry>,
    limit: nat,
    done: Seq<Entry>,
    todo: Seq<Entry>,
    result: Result<(), WriteError>,
)
    requires
        before == start + done,
        recorded_count(start, limit, done) == done.len(),
        done.len() < todo.len(),
        todo.take(done.len() as int) == done,
        !is_double(todo[done.len() as int]),
        recorded(
            before,
            after,
            limit,
            todo[done.len() as int],
            refusal_message(before, limit, todo[done.len() as int]),
            result,
        ),
    ensures
        ({
            let next = todo.take(done.len() as int + 1);
            &&& result is Ok ==> after == start + next && recorded_count(start, limit, next)
                == next.len()
            &&& result is Err ==> recorded_all(start, after, limit, todo, result)
        }),
{
    let entry = todo[done.len() as int];
    let next = todo.take(done.len() as int + 1);
    let one = seq![entry];
    assert(next =~= done + one);
    lemma_count_append(start, limit, done, one);
    assert(one.skip(1) =~= Seq::empty());
    assert(recorded_count(before.push(entry), limit, one.skip(1)) == 0);
    if result is Ok {
        assert(start + next =~= before.push(entry));
    } else {
        let rest = todo.skip(done.len() as int);
        assert(todo =~= done + rest);
        lemma_count_append(start, limit, done, rest);
        assert(recorded_count(before, limit, rest) == 0);
    }
}

/// Entries that were all recorded, followed by others of which not all are.
pub(crate) proof fn lemma_stopped(start: Seq<Entry>, limit: nat, done: Seq<Entry>, part: Seq<Entry>, tail: Seq<Entry>)
    requires
        recorded_count(start, limit, done) == done.len(),
        recorded_count(start + done, limit, part) < part.len(),
    ensures
        ({
            let todo = done + part + tail;
            let here = recorded_count(start + done, limit, part);
            let count = recorded_count(start, limit, todo);
            &&& count == done.len() + here
            &&& count < todo.len()
            &&& todo[count as int] == part[here as int]
            &&& start + todo.take(count as int) == start + done + part.take(here as int)
            &&& todo.skip(count as int + 1) == part.skip(here as int + 1) + tail
        }),
{
    let todo = done + part + tail;
    let here = recorded_count(start + done, limit, part);
    lemma_count_append(start + done, limit, part, tail);
    lemma_count_append(start, limit, done, part + tail);
    assert(todo =~= done + (part + tail));
    assert(start + todo.take((done.len() + here) as int) =~= start + done + part.take(here as int));
    assert(todo.skip(done.len() as int + here + 1) =~= part.skip(here as int + 1) + tail);
}

/// Entries that were all recorded, followed by others that were all recorded.
pub(crate) proof fn lemma_recorded_more(start: Seq<Entry>, limit: nat, done: Seq<Entry>, part: Seq<Entry>)
    requires
        recorded_count(start, limit, done) == done.len(),
        recorded_count(start + done, limit, part) == part.len(),
    ensures
        recorded_count(start, limit, done + part) == (done + part).len(),
        start + done + part == start + (done + part),
{
    lemma_count_append(start, limit, done, part);
    assert(start + done + part =~= start + (done + part));
}

} // verus!
