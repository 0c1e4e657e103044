//! Writing a job's changes to the client's buffer.

use crate::entity::{is_finite, sorted_by_name, Value};
use crate::ilp::{
    buffer_at, buffer_column_bool, buffer_column_i64, buffer_column_str, buffer_entries,
    buffer_name_limit, buffer_symbol, buffer_table, column_message, recorded, refusal, ColumnValue,
    Entry, WriteError,
};
use crate::job::WriteJob;
use crate::rows::{
    exported_fields, field_columns, is_double, is_meta_column, lemma_recorded_more,
    lemma_recorded_one, lemma_stopped, recorded_all, recorded_count, refused, row_end, row_entries,
    row_head, rows_entries, table_name, value_column,
};
use crate::sink::{EntityChange, EntityChangeOperation};
use crate::text::list_text;
use questdb::ingress::Buffer;
use vstd::prelude::*;

verus! {

/// Builds the name of the table that changes of an entity type go to.
fn make_table_name(prefix: &str, namespace: &str, entity_type: &str) -> (name: String)
    ensures
        name@ == table_name(prefix@, namespace@, entity_type@),
{
    proof {
        reveal_strlit("_");
    }
    let mut name = prefix.to_owned();
    name.append(namespace);
    name.append("_");
    name.append(entity_type);
    assert(name@ =~= table_name(prefix@, namespace@, entity_type@));
    name
}

/// Records what every row begins with.
fn write_head(buffer: &mut Buffer, table_prefix: &str, namespace: &str, change: &EntityChange) -> (result: Result<
    (),
    WriteError,
>)
    ensures
        buffer_name_limit(*final(buffer)) == buffer_name_limit(*old(buffer)),
        recorded_all(
            buffer_entries(*old(buffer)),
            buffer_entries(*final(buffer)),
            buffer_name_limit(*old(buffer)),
            row_head(table_prefix@, namespace@, *change),
            result,
        ),
{
    let ghost start = buffer_entries(*buffer);
    let ghost limit = buffer_name_limit(*buffer);
    let ghost head = row_head(table_prefix@, namespace@, *change);
    let table = make_table_name(table_prefix, namespace, change.entity_type.as_str());

    assert(start + Seq::<Entry>::empty() =~= start);
    assert(head.take(0) =~= Seq::<Entry>::empty());
    let result = buffer_table(buffer, table.as_str());
    let ghost one = buffer_entries(*buffer);
    proof {
        lemma_recorded_one(start, start, one, limit, head.take(0), head, result);
    }
    if result.is_err() {
        return result;
    }
    let result = buffer_symbol(buffer, "op", change.operation.as_str());
    let ghost two = buffer_entries(*buffer);
    proof {
        lemma_recorded_one(start, one, two, limit, head.take(1), head, result);
    }
    if result.is_err() {
        return result;
    }
    let result = buffer_column_str(buffer, "id", change.id.as_str());
    let ghost three = buffer_entries(*buffer);
    proof {
        lemma_recorded_one(start, two, three, limit, head.take(2), head, result);
    }
    if result.is_err() {
        return result;
    }
    let result = buffer_column_i64(buffer, "block_number", change.block_number as i64);
    proof {
        lemma_recorded_one(start, three, buffer_entries(*buffer), limit, head.take(3), head, result);
        assert(head.take(4) =~= head);
    }
    result
}

/// What became of an entity field.
pub enum Appended {
    /// The field's column was recorded, or the field makes none.
    Done,
    /// The field makes a column that holds the double with these bits, which the caller records.
    Double(u64),
}

/// Append a single entity field to the buffer, mapping values to column types. `Null` values are
/// omitted, and a column that holds a double is left to the caller.
pub fn append_value(buffer: &mut Buffer, name: &str, value: &Value) -> (result: Result<Appended, WriteError>)
    ensures
        buffer_name_limit(*final(buffer)) == buffer_name_limit(*old(buffer)),
        match value_column(*value) {
            None => result == Ok::<Appended, WriteError>(Appended::Done)
                && buffer_entries(*final(buffer)) == buffer_entries(*old(buffer)),
            Some(ColumnValue::Double(bits)) => result == Ok::<Appended, WriteError>(
                Appended::Double(bits),
            ) && buffer_entries(*final(buffer)) == buffer_entries(*old(buffer)),
            Some(column) => {
                &&& result matches Ok(appended) ==> appended == Appended::Done
                &&& recorded(
                    buffer_entries(*old(buffer)),
                    buffer_entries(*final(buffer)),
                    buffer_name_limit(*old(buffer)),
                    Entry::Column(name@, column),
                    column_message(
                        buffer_entries(*old(buffer)),
                        buffer_name_limit(*old(buffer)),
                        name@,
                    ),
                    match result {
                        Ok(_) => Ok(()),
                        Err(error) => Err(error),
                    },
                )
            },
        },
{
    let outcome = match value {
        Value::String(text) => buffer_column_str(buffer, name, text.as_str()),
        Value::Int(number) => buffer_column_i64(buffer, name, *number as i64),
        Value::Int8(number) => buffer_column_i64(buffer, name, *number),
        Value::Bool(flag) => buffer_column_bool(buffer, name, *flag),
        Value::BigDecimal(decimal) => {
            // Keep numeric where possible; fall back to a string otherwise.
            match decimal.double {
                Some(bits) if is_finite(bits) => {
                    return Ok(Appended::Double(bits));
                },
                _ => buffer_column_str(buffer, name, decimal.text.as_str()),
            }
        },
        Value::BigInt(text) => buffer_column_str(buffer, name, text.as_str()),
        Value::Bytes(text) => buffer_column_str(buffer, name, text.as_str()),
        Value::Timestamp(text) => buffer_column_str(buffer, name, text.as_str()),
        Value::List(items) => {
            let text = list_text(items);
            buffer_column_str(buffer, name, text.as_str())
        },
        Value::Null => Ok(()),
    };
    match outcome {
        Ok(_) => Ok(Appended::Done),
        Err(error) => Err(error),
    }
}

/// Appends the fields of an entity, from the one at `from` on, up to a column that holds a double.
/// Returns the position of that field and the bits of the double.
fn write_fields(buffer: &mut Buffer, fields: &Vec<(String, Value)>, from: usize) -> (result: Result<
    Option<(usize, u64)>,
    WriteError,
>)
    requires
        from <= fields@.len(),
    ensures
        buffer_name_limit(*final(buffer)) == buffer_name_limit(*old(buffer)),
        ({
            let before = buffer_entries(*old(buffer));
            let limit = buffer_name_limit(*old(buffer));
            let todo = field_columns(fields@.skip(from as int));
            let count = recorded_count(before, limit, todo);
            &&& buffer_entries(*final(buffer)) == before + todo.take(count as int)
            &&& match result {
                Ok(None) => count == todo.len(),
                Ok(Some((at, bits))) => {
                    &&& from <= at < fields@.len()
                    &&& count < todo.len()
                    &&& todo[count as int] == Entry::Column(
                        fields@[at as int].0@,
                        ColumnValue::Double(bits),
                    )
                    &&& todo.skip(count as int + 1) == field_columns(fields@.skip(at + 1))
                },
                Err(error) => refused(before, limit, todo, error),
            }
        }),
{
    let ghost start = buffer_entries(*buffer);
    let ghost limit = buffer_name_limit(*buffer);
    let ghost todo = field_columns(fields@.skip(from as int));
    let ghost mut done = Seq::<Entry>::empty();
    assert(start + done =~= start);
    assert(done + todo =~= todo);
    let mut at: usize = from;
    while at < fields.len()
        invariant
            from <= at <= fields@.len(),
            start == buffer_entries(*old(buffer)),
            limit == buffer_name_limit(*old(buffer)),
            limit == buffer_name_limit(*buffer),
            buffer_entries(*buffer) == start + done,
            todo == field_columns(fields@.skip(from as int)),
            todo == done + field_columns(fields@.skip(at as int)),
            recorded_count(start, limit, done) == done.len(),
        decreases fields@.len() - at,
    {
        let name = fields[at].0.as_str();
        let ghost rest = field_columns(fields@.skip(at as int));
        let ghost tail = field_columns(fields@.skip(at + 1));
        assert(fields@.skip(at as int).skip(1) =~= fields@.skip(at + 1));
        assert(fields@.skip(at as int)[0] == fields@[at as int]);
        // `id` and `block_number` are columns that every row has.
        if *name == *"id" || *name == *"block_number" {
            assert(is_meta_column(name@));
            at = at + 1;
            continue ;
        }
        let ghost before = buffer_entries(*buffer);
        let result = append_value(buffer, name, &fields[at].1);
        let ghost column = value_column(fields@[at as int].1);
        proof {
            if column is Some {
                let entry = Entry::Column(name@, column.unwrap());
                let one = seq![entry];
                assert(rest == one + tail);
                assert(todo =~= done + one + tail);
                assert(one.skip(1) =~= Seq::empty());
                assert(recorded_count(before.push(entry), limit, one.skip(1)) == 0);
                if is_double(entry) || refusal(before, limit, entry) is Some {
                    lemma_stopped(start, limit, done, one, tail);
                    assert(one.take(0) =~= Seq::empty());
                    assert(start + done + one.take(0) =~= start + done);
                    assert(one.skip(1) + tail =~= tail);
                } else {
                    lemma_recorded_more(start, limit, done, one);
                    assert(before.push(entry) =~= before + one);
                    done = done + one;
                }
            }
        }
        match result {
            Ok(Appended::Done) => {},
            Ok(Appended::Double(bits)) => {
                return Ok(Some((at, bits)));
            },
            Err(error) => {
                return Err(error);
            },
        }
        at = at + 1;
    }
    assert(fields@.skip(at as int) =~= Seq::empty());
    assert(todo =~= done);
    assert(todo.take(todo.len() as int) =~= todo);
    Ok(None)
}

/// How far the writing of a job has come.
#[derive(Clone, Copy, Debug)]
pub struct JobCursor {
    row: usize,
    started: bool,
    field: usize,
}

impl JobCursor {
    /// The change whose row is next or under way.
    pub closed spec fn row(self) -> nat {
        self.row as nat
    }

    /// Whether the row of that change was begun.
    pub closed spec fn started(self) -> bool {
        self.started
    }

    /// How many of that change's fields are dealt with.
    pub closed spec fn field(self) -> nat {
        self.field as nat
    }

    /// Whether the cursor is a place in the job.
    pub open spec fn fits(self, job: WriteJob) -> bool {
        &&& self.row() <= job.changes@.len()
        &&& if self.started() {
            &&& self.row() < job.changes@.len()
            &&& self.field() <= exported_fields(job.changes@[self.row() as int]).len()
        } else {
            self.field() == 0
        }
    }

    /// The place before a job's first row.
    pub fn start() -> (cursor: JobCursor)
        ensures
            cursor.row() == 0,
            !cursor.started(),
            cursor.field() == 0,
    {
        JobCursor { row: 0, started: false, field: 0 }
    }
}

/// The entries of a change's row that are still to be recorded: all, or, once the row was begun, the
/// columns of the fields from `field` on and the end.
pub open spec fn row_remaining(
    prefix: Seq<char>,
    namespace: Seq<char>,
    change: EntityChange,
    started: bool,
    field: int,
) -> Seq<Entry> {
    if started {
        field_columns(exported_fields(change).skip(field)) + row_end(change.block_time)
    } else {
        row_entries(prefix, namespace, change)
    }
}

/// The entries of a job that are still to be recorded.
pub open spec fn remaining(prefix: Seq<char>, job: WriteJob, cursor: JobCursor) -> Seq<Entry> {
    let row = cursor.row() as int;
    if row < job.changes@.len() {
        row_remaining(
            prefix,
            job.namespace@,
            job.changes@[row],
            cursor.started(),
            cursor.field() as int,
        ) + rows_entries(prefix, job.namespace@, job.changes@.skip(row + 1))
    } else {
        Seq::empty()
    }
}

/// Before a row is begun, its own entries and those of the later rows remain.
proof fn lemma_next_row(prefix: Seq<char>, job: WriteJob, cursor: JobCursor)
    requires
        cursor.fits(job),
        !cursor.started(),
    ensures
        remaining(prefix, job, cursor) == rows_entries(
            prefix,
            job.namespace@,
            job.changes@.skip(cursor.row() as int),
        ),
{
    let row = cursor.row() as int;
    let changes = job.changes@.skip(row);
    if row < job.changes@.len() {
        assert(changes[0] == job.changes@[row]);
        assert(changes.skip(1) =~= job.changes@.skip(row + 1));
    } else {
        assert(changes =~= Seq::empty());
    }
}

/// What a call of `write_job` came to.
#[derive(Clone, Copy, Debug)]
pub enum Progress<'a> {
    /// All rows of the job, this many, are in the buffer.
    Complete(u64),
    /// The next entry is a column that holds the double with these bits.
    Double { name: &'a str, bits: u64 },
}

/// Records the columns of a change's fields, from the one at `field` on, and the end of its row, up
/// to a column that holds a double. Returns the name of that column, the bits of the double and
/// the number of fields that are dealt with once the column is recorded.
fn finish_row<'a>(buffer: &mut Buffer, change: &'a EntityChange, field: usize) -> (result: Result<
    Option<(&'a str, u64, usize)>,
    WriteError,
>)
    requires
        field <= exported_fields(*change).len(),
        change.block_time.in_range(),
    ensures
        sorted_by_name(exported_fields(*change)),
        buffer_name_limit(*final(buffer)) == buffer_name_limit(*old(buffer)),
        ({
            let before = buffer_entries(*old(buffer));
            let limit = buffer_name_limit(*old(buffer));
            let fields = exported_fields(*change);
            let end = row_end(change.block_time);
            let todo = field_columns(fields.skip(field as int)) + end;
            let count = recorded_count(before, limit, todo);
            &&& buffer_entries(*final(buffer)) == before + todo.take(count as int)
            &&& match result {
                Ok(None) => count == todo.len(),
                Ok(Some((name, bits, next))) => {
                    &&& count < todo.len()
                    &&& todo[count as int] == Entry::Column(name@, ColumnValue::Double(bits))
                    &&& next <= fields.len()
                    &&& todo.skip(count as int + 1) == field_columns(fields.skip(next as int)) + end
                },
                Err(error) => refused(before, limit, todo, error),
            }
        }),
{
    let ghost start = buffer_entries(*buffer);
    let ghost limit = buffer_name_limit(*buffer);
    let ghost fields = exported_fields(*change);
    let ghost columns = field_columns(fields.skip(field as int));
    let ghost end = row_end(change.block_time);
    let ghost none = Seq::<Entry>::empty();
    proof {
        assert(start + none =~= start);
        assert(none + columns + end =~= columns + end);
    }
    if let Some(entity) = &change.data {
        if change.operation != EntityChangeOperation::Remove {
            let stored = entity.sorted_ref();
            let result = write_fields(buffer, stored, field);
            match result {
                Ok(None) => {
                    assert(columns.take(columns.len() as int) =~= columns);
                },
                Ok(Some((at, bits))) => {
                    proof {
                        lemma_stopped(start, limit, none, columns, end);
                    }
                    assert(at < stored.len());
                    let next: usize = at + 1;
                    return Ok(Some((stored[at].0.as_str(), bits, next)));
                },
                Err(error) => {
                    proof {
                        lemma_stopped(start, limit, none, columns, end);
                    }
                    return Err(error);
                },
            }
        }
    }
    proof {
        if fields.len() == 0 {
            assert(fields.skip(field as int) =~= fields);
        }
        assert(start + columns =~= buffer_entries(*buffer));
        assert(end.skip(1) =~= none);
        assert(columns + end + none =~= columns + end);
    }
    let ghost before = buffer_entries(*buffer);
    let result = buffer_at(buffer, change.block_time.as_nanos());
    match result {
        Ok(_) => {
            proof {
                assert(before.push(end[0]) =~= before + end);
                assert(recorded_count(before.push(end[0]), limit, end.skip(1)) == 0);
                lemma_recorded_more(start, limit, columns, end);
                assert((columns + end).take((columns + end).len() as int) =~= columns + end);
            }
            Ok(None)
        },
        Err(error) => {
            proof {
                lemma_stopped(start, limit, columns, end, none);
                assert(before + end.take(0) =~= before);
            }
            Err(error)
        },
    }
}

/// Serialize a job into the buffer, from where the cursor stands, up to a column that holds a
/// double. The caller records that column and goes on with the cursor. The columns of a row's fields
/// are in the order of their names.
pub fn write_job<'a>(
    buffer: &mut Buffer,
    table_prefix: &str,
    job: &'a WriteJob,
    cursor: &mut JobCursor,
) -> (result: Result<Progress<'a>, WriteError>)
    requires
        old(cursor).fits(*job),
        job.times_in_range(),
    ensures
        final(cursor).fits(*job),
        old(cursor).row() <= final(cursor).row(),
        forall|i: int|
            old(cursor).row() <= i < final(cursor).row() ==> sorted_by_name(
                exported_fields(#[trigger] job.changes@[i]),
            ),
        buffer_name_limit(*final(buffer)) == buffer_name_limit(*old(buffer)),
        ({
            let before = buffer_entries(*old(buffer));
            let limit = buffer_name_limit(*old(buffer));
            let todo = remaining(table_prefix@, *job, *old(cursor));
            let count = recorded_count(before, limit, todo);
            &&& buffer_entries(*final(buffer)) == before + todo.take(count as int)
            &&& match result {
                Ok(Progress::Complete(rows)) => {
                    &&& count == todo.len()
                    &&& rows == job.changes@.len()
                    &&& final(cursor).row() == job.changes@.len()
                },
                Ok(Progress::Double { name, bits }) => {
                    &&& count < todo.len()
                    &&& todo[count as int] == Entry::Column(name@, ColumnValue::Double(bits))
                    &&& remaining(table_prefix@, *job, *final(cursor)) == todo.skip(count as int + 1)
                },
                Err(error) => refused(before, limit, todo, error),
            }
        }),
{
    let ghost start = buffer_entries(*buffer);
    let ghost limit = buffer_name_limit(*buffer);
    let ghost prefix = table_prefix@;
    let ghost todo = remaining(prefix, *job, *cursor);
    let ghost mut done = Seq::<Entry>::empty();
    assert(start + done =~= start);
    assert(done + todo =~= todo);
    while cursor.row < job.changes.len()
        invariant
            cursor.fits(*job),
            old(cursor).row() <= cursor.row(),
            forall|i: int|
                old(cursor).row() <= i < cursor.row() ==> sorted_by_name(
                    exported_fields(#[trigger] job.changes@[i]),
                ),
            job.times_in_range(),
            prefix == table_prefix@,
            start == buffer_entries(*old(buffer)),
            limit == buffer_name_limit(*old(buffer)),
            limit == buffer_name_limit(*buffer),
            todo == remaining(prefix, *job, *old(cursor)),
            buffer_entries(*buffer) == start + done,
            todo == done + remaining(prefix, *job, *cursor),
            recorded_count(start, limit, done) == done.len(),
        decreases job.changes@.len() - cursor.row,
    {
        let row: usize = cursor.row;
        let change = &job.changes[row];
        let ghost later = rows_entries(prefix, job.namespace@, job.changes@.skip(row + 1));
        let ghost end = row_end(change.block_time);
        if !cursor.started {
            let ghost head = row_head(prefix, job.namespace@, *change);
            let ghost columns = field_columns(exported_fields(*change));
            let ghost tail = columns + end + later;
            assert(todo =~= done + head + tail);
            let result = write_head(buffer, table_prefix, job.namespace.as_str(), change);
            match result {
                Ok(_) => {
                    proof {
                        assert(head.take(head.len() as int) =~= head);
                        lemma_recorded_more(start, limit, done, head);
                        done = done + head;
                    }
                },
                Err(error) => {
                    proof {
                        lemma_stopped(start, limit, done, head, tail);
                    }
                    return Err(error);
                },
            }
            cursor.started = true;
            cursor.field = 0;
            assert(exported_fields(*change).skip(0) =~= exported_fields(*change));
        }
        let ghost rest = field_columns(exported_fields(*change).skip(cursor.field as int)) + end;
        assert(todo =~= done + rest + later);
        let result = finish_row(buffer, change, cursor.field);
        match result {
            Ok(None) => {
                proof {
                    assert(rest.take(rest.len() as int) =~= rest);
                    lemma_recorded_more(start, limit, done, rest);
                    done = done + rest;
                }
            },
            Ok(Some((name, bits, next))) => {
                proof {
                    lemma_stopped(start, limit, done, rest, later);
                }
                cursor.field = next;
                return Ok(Progress::Double { name, bits });
            },
            Err(error) => {
                proof {
                    lemma_stopped(start, limit, done, rest, later);
                }
                return Err(error);
            },
        }
        cursor.row = row + 1;
        cursor.started = false;
        cursor.field = 0;
        proof {
            lemma_next_row(prefix, *job, *cursor);
        }
    }
    proof {
        assert(todo =~= done);
        assert(todo.take(todo.len() as int) =~= todo);
    }
    Ok(Progress::Complete(job.changes.len() as u64))
}

} // verus!
