//! What holds of the rows that changes make.

use crate::entity::{sorted_by_name, Value};
use crate::export::{remaining, JobCursor};
use crate::ilp::{at_row_boundary, refusal, well_named, ColumnValue, Entry};
use crate::job::WriteJob;
use crate::rows::{
    exported_fields, field_columns, is_double, is_meta_column, recorded_count, row_entries,
    row_head, rows_entries, table_name, value_column,
};
use crate::sink::{operation_text, EntityChange, EntityChangeOperation};
use crate::text::precedes;
use vstd::prelude::*;
use vstd::utf8::is_ascii_chars_encode_utf8;

verus! {

/// The number of rows that the entries end.
pub open spec fn ended_rows(entries: Seq<Entry>) -> nat
    decreases entries.len(),
{
    if entries.len() == 0 {
        0
    } else {
        ended_rows(entries.drop_last()) + if entries.last() is At {
            1nat
        } else {
            0nat
        }
    }
}

proof fn lemma_ended_rows_append(first: Seq<Entry>, second: Seq<Entry>)
    ensures
        ended_rows(first + second) == ended_rows(first) + ended_rows(second),
    decreases second.len(),
{
    let both = first + second;
    if second.len() == 0 {
        assert(both =~= first);
    } else {
        assert(both.drop_last() =~= first + second.drop_last());
        assert(both.last() == second.last());
        lemma_ended_rows_append(first, second.drop_last());
    }
}

proof fn lemma_no_ended_rows(entries: Seq<Entry>)
    requires
        forall|i: int| 0 <= i < entries.len() ==> !(#[trigger] entries[i] is At),
    ensures
        ended_rows(entries) == 0,
    decreases entries.len(),
{
    if entries.len() > 0 {
        lemma_no_ended_rows(entries.drop_last());
    }
}

/// Each column of an entity's fields is that of one field, and not a column that every row has.
pub proof fn field_columns_come_from_fields(fields: Seq<(String, Value)>, k: int)
    requires
        0 <= k < field_columns(fields).len(),
    ensures
        exists|i: int|
            0 <= i < fields.len() && !is_meta_column(#[trigger] fields[i].0@) && value_column(fields[i].1) is Some
                && field_columns(fields)[k] == Entry::Column(
                fields[i].0@,
                value_column(fields[i].1).unwrap(),
            ),
    decreases fields.len(),
{
    let tail = fields.skip(1);
    let rest = field_columns(tail);
    let own = value_column(fields[0].1) is Some && !is_meta_column(fields[0].0@);
    if own && k == 0 {
        assert(!is_meta_column(fields[0].0@));
    } else {
        let at = if own {
            k - 1
        } else {
            k
        };
        assert(field_columns(fields)[k] == rest[at]);
        field_columns_come_from_fields(tail, at);
        let i = choose|i: int|
            0 <= i < tail.len() && !is_meta_column(#[trigger] tail[i].0@) && value_column(tail[i].1) is Some
                && rest[at] == Entry::Column(tail[i].0@, value_column(tail[i].1).unwrap());
        assert(fields[i + 1] == tail[i]);
        assert(!is_meta_column(fields[i + 1].0@));
    }
}

/// Every field of an entity makes its column, unless it is null or named like a column that every
/// row has.
pub proof fn fields_make_columns(fields: Seq<(String, Value)>, i: int)
    requires
        0 <= i < fields.len(),
        !is_meta_column(fields[i].0@),
        value_column(fields[i].1) is Some,
    ensures
        field_columns(fields).contains(
            Entry::Column(fields[i].0@, value_column(fields[i].1).unwrap()),
        ),
    decreases fields.len(),
{
    let entry = Entry::Column(fields[i].0@, value_column(fields[i].1).unwrap());
    let tail = fields.skip(1);
    let rest = field_columns(tail);
    if i == 0 {
        assert(field_columns(fields)[0] == entry);
    } else {
        assert(tail[i - 1] == fields[i]);
        fields_make_columns(tail, i - 1);
        let k = choose|k: int| 0 <= k < rest.len() && rest[k] == entry;
        let own = value_column(fields[0].1) is Some && !is_meta_column(fields[0].0@);
        assert(field_columns(fields)[if own {
            k + 1
        } else {
            k
        }] == entry);
    }
}

/// The columns of an entity's fields are in the strict order of their names, so none occurs twice.
pub proof fn field_columns_are_sorted(fields: Seq<(String, Value)>, k: int, l: int)
    requires
        sorted_by_name(fields),
        0 <= k < l < field_columns(fields).len(),
    ensures
        field_columns(fields)[k] is Column,
        field_columns(fields)[l] is Column,
        precedes(field_columns(fields)[k]->Column_0, field_columns(fields)[l]->Column_0),
    decreases fields.len(),
{
    let tail = fields.skip(1);
    let rest = field_columns(tail);
    assert forall|i: int, j: int| 0 <= i < j < tail.len() implies precedes(
        #[trigger] tail[i].0@,
        #[trigger] tail[j].0@,
    ) by {
        assert(tail[i] == fields[i + 1] && tail[j] == fields[j + 1]);
        assert(precedes(fields[i + 1].0@, fields[j + 1].0@));
    }
    let own = value_column(fields[0].1) is Some && !is_meta_column(fields[0].0@);
    if !own {
        field_columns_are_sorted(tail, k, l);
    } else if k > 0 {
        assert(field_columns(fields)[k] == rest[k - 1]);
        assert(field_columns(fields)[l] == rest[l - 1]);
        field_columns_are_sorted(tail, k - 1, l - 1);
    } else {
        assert(field_columns(fields)[l] == rest[l - 1]);
        field_columns_come_from_fields(tail, l - 1);
        let i = choose|i: int|
            0 <= i < tail.len() && !is_meta_column(#[trigger] tail[i].0@) && value_column(tail[i].1) is Some
                && rest[l - 1] == Entry::Column(tail[i].0@, value_column(tail[i].1).unwrap());
        assert(tail[i] == fields[i + 1]);
        assert(precedes(fields[0].0@, fields[i + 1].0@));
    }
}

/// A row begins with its table, ends with the time of its block, and has nothing but columns of
/// other names in between besides one operation, one id and one block number.
pub proof fn row_has_one_of_each_meta_column(
    prefix: Seq<char>,
    namespace: Seq<char>,
    change: EntityChange,
)
    ensures
        ({
            let row = row_entries(prefix, namespace, change);
            &&& row.len() >= 5
            &&& row[0] == Entry::Table(table_name(prefix, namespace, change.entity_type@))
            &&& row[1] == Entry::Symbol("op"@, operation_text(change.operation))
            &&& row[2] == Entry::Column("id"@, ColumnValue::Str(change.id@))
            &&& row[3] == Entry::Column(
                "block_number"@,
                ColumnValue::Long(change.block_number as i64),
            )
            &&& row.last() == Entry::At(change.block_time.nanos() as i64)
            &&& forall|i: int|
                4 <= i < row.len() - 1 ==> (#[trigger] row[i] is Column) && !is_meta_column(
                    row[i]->Column_0,
                )
        }),
{
    let head = row_head(prefix, namespace, change);
    let columns = field_columns(exported_fields(change));
    let row = row_entries(prefix, namespace, change);
    assert forall|i: int| 4 <= i < row.len() - 1 implies (#[trigger] row[i] is Column) && !is_meta_column(
        row[i]->Column_0,
    ) by {
        assert(row[i] == columns[i - 4]);
        field_columns_come_from_fields(exported_fields(change), i - 4);
    }
}

/// The row of a removal is a tombstone: it has the id and the block number and no other column.
pub proof fn removal_is_a_tombstone(prefix: Seq<char>, namespace: Seq<char>, change: EntityChange)
    requires
        change.operation == EntityChangeOperation::Remove,
    ensures
        row_entries(prefix, namespace, change) == seq![
            Entry::Table(table_name(prefix, namespace, change.entity_type@)),
            Entry::Symbol("op"@, "remove"@),
            Entry::Column("id"@, ColumnValue::Str(change.id@)),
            Entry::Column("block_number"@, ColumnValue::Long(change.block_number as i64)),
            Entry::At(change.block_time.nanos() as i64),
        ],
{
}

/// The row of an insertion or an overwriting has a column for every field of the entity, unless the
/// field is null or named like a column that every row has.
pub proof fn full_entity_is_exported(
    prefix: Seq<char>,
    namespace: Seq<char>,
    change: EntityChange,
    i: int,
)
    requires
        change.operation != EntityChangeOperation::Remove,
        change.data is Some,
        0 <= i < change.data.unwrap().fields().len(),
        !is_meta_column(change.data.unwrap().fields()[i].0@),
        value_column(change.data.unwrap().fields()[i].1) is Some,
    ensures
        row_entries(prefix, namespace, change).contains(
            Entry::Column(
                change.data.unwrap().fields()[i].0@,
                value_column(change.data.unwrap().fields()[i].1).unwrap(),
            ),
        ),
{
    let fields = exported_fields(change);
    let columns = field_columns(fields);
    let entry = Entry::Column(fields[i].0@, value_column(fields[i].1).unwrap());
    fields_make_columns(fields, i);
    let k = choose|k: int| 0 <= k < columns.len() && columns[k] == entry;
    assert(row_entries(prefix, namespace, change)[k + 4] == entry);
}

/// For each change one row is written.
pub proof fn one_row_per_change(prefix: Seq<char>, namespace: Seq<char>, changes: Seq<EntityChange>)
    ensures
        ended_rows(rows_entries(prefix, namespace, changes)) == changes.len(),
    decreases changes.len(),
{
    if changes.len() > 0 {
        let row = row_entries(prefix, namespace, changes[0]);
        let open = row.drop_last();
        one_row_per_change(prefix, namespace, changes.skip(1));
        row_has_one_of_each_meta_column(prefix, namespace, changes[0]);
        assert forall|i: int| 0 <= i < open.len() implies !(#[trigger] open[i] is At) by {
            assert(open[i] == row[i]);
        }
        lemma_no_ended_rows(open);
        lemma_ended_rows_append(row, rows_entries(prefix, namespace, changes.skip(1)));
    }
}

/// The rows of a job that are in the buffer once it is complete are as many as its changes.
pub proof fn complete_job_adds_its_rows(before: Seq<Entry>, prefix: Seq<char>, job: WriteJob)
    ensures
        ended_rows(before + rows_entries(prefix, job.namespace@, job.changes@)) == ended_rows(before)
            + job.changes@.len(),
{
    one_row_per_change(prefix, job.namespace@, job.changes@);
    lemma_ended_rows_append(before, rows_entries(prefix, job.namespace@, job.changes@));
}

/// A cursor at the start has all rows of the job before it.
pub proof fn start_has_the_whole_job_before_it(prefix: Seq<char>, job: WriteJob, cursor: JobCursor)
    requires
        cursor.row() == 0,
        !cursor.started(),
        cursor.field() == 0,
    ensures
        cursor.fits(job),
        remaining(prefix, job, cursor) == rows_entries(prefix, job.namespace@, job.changes@),
{
}

/// Recording the double for which `write_job` stopped, and then going on, records the entries of the
/// job in their order: what the buffer holds and what remains make up the same whole.
pub proof fn pausing_keeps_the_order(before: Seq<Entry>, limit: nat, todo: Seq<Entry>)
    requires
        recorded_count(before, limit, todo) < todo.len(),
    ensures
        ({
            let count = recorded_count(before, limit, todo) as int;
            before + todo == before + todo.take(count) + seq![todo[count]] + todo.skip(count + 1)
        }),
{
    let count = recorded_count(before, limit, todo) as int;
    assert(before + todo =~= before + todo.take(count) + seq![todo[count]] + todo.skip(count + 1));
}

/// Whether a buffer that holds `before` records all of the entries, one after the other.
pub open spec fn all_recordable(before: Seq<Entry>, limit: nat, todo: Seq<Entry>) -> bool
    decreases todo.len(),
{
    todo.len() == 0 || refusal(before, limit, todo[0]) is None && all_recordable(
        before.push(todo[0]),
        limit,
        todo.skip(1),
    )
}

proof fn lemma_recordable_append(before: Seq<Entry>, limit: nat, first: Seq<Entry>, second: Seq<Entry>)
    requires
        all_recordable(before, limit, first),
        all_recordable(before + first, limit, second),
    ensures
        all_recordable(before, limit, first + second),
    decreases first.len(),
{
    let both = first + second;
    if first.len() == 0 {
        assert(both =~= second);
        assert(before + first =~= before);
    } else {
        assert(both[0] == first[0]);
        assert(both.skip(1) =~= first.skip(1) + second);
        assert(before.push(first[0]) + first.skip(1) =~= before + first);
        lemma_recordable_append(before.push(first[0]), limit, first.skip(1), second);
    }
}

proof fn lemma_columns_recordable(before: Seq<Entry>, limit: nat, columns: Seq<Entry>)
    requires
        !at_row_boundary(before),
        forall|i: int|
            0 <= i < columns.len() ==> (#[trigger] columns[i] is Column) && well_named(limit, columns[i]),
    ensures
        all_recordable(before, limit, columns),
    decreases columns.len(),
{
    if columns.len() > 0 {
        let next = before.push(columns[0]);
        assert(next.last() == columns[0]);
        assert forall|i: int| 0 <= i < columns.skip(1).len() implies (#[trigger] columns.skip(1)[i] is Column)
            && well_named(limit, columns.skip(1)[i]) by {
            assert(columns.skip(1)[i] == columns[i + 1]);
        }
        lemma_columns_recordable(next, limit, columns.skip(1));
    }
}

/// The names of the columns that every row has are good, and at most twelve bytes long.
pub proof fn meta_names_are_valid(limit: nat, value: Seq<char>, column: ColumnValue)
    requires
        limit >= 12,
    ensures
        well_named(limit, Entry::Symbol("op"@, value)),
        well_named(limit, Entry::Column("id"@, column)),
        well_named(limit, Entry::Column("block_number"@, column)),
{
    reveal_strlit("op");
    reveal_strlit("id");
    reveal_strlit("block_number");
    is_ascii_chars_encode_utf8("op"@);
    is_ascii_chars_encode_utf8("id"@);
    is_ascii_chars_encode_utf8("block_number"@);
}

/// Whether a buffer takes the table name and the field names of a change's row, and the time of its
/// block is not negative.
pub open spec fn row_is_valid(prefix: Seq<char>, namespace: Seq<char>, limit: nat, change: EntityChange) -> bool {
    &&& well_named(limit, Entry::Table(table_name(prefix, namespace, change.entity_type@)))
    &&& forall|i: int|
        0 <= i < field_columns(exported_fields(change)).len() ==> well_named(
            limit,
            #[trigger] field_columns(exported_fields(change))[i],
        )
    &&& 0 <= change.block_time.nanos() <= i64::MAX
}

/// On a buffer where a row may begin, a valid row is recorded, and then a row may begin again.
pub proof fn valid_row_is_recordable(
    before: Seq<Entry>,
    limit: nat,
    prefix: Seq<char>,
    namespace: Seq<char>,
    change: EntityChange,
)
    requires
        limit >= 12,
        at_row_boundary(before),
        row_is_valid(prefix, namespace, limit, change),
    ensures
        all_recordable(before, limit, row_entries(prefix, namespace, change)),
        at_row_boundary(before + row_entries(prefix, namespace, change)),
{
    let row = row_entries(prefix, namespace, change);
    row_has_one_of_each_meta_column(prefix, namespace, change);
    let table = before.push(row[0]);
    let symbol = table.push(row[1]);
    let columns = row.subrange(2, row.len() - 1);
    meta_names_are_valid(
        limit,
        operation_text(change.operation),
        ColumnValue::Str(change.id@),
    );
    meta_names_are_valid(
        limit,
        operation_text(change.operation),
        ColumnValue::Long(change.block_number as i64),
    );
    let end = seq![row.last()];
    assert forall|i: int| 0 <= i < columns.len() implies (#[trigger] columns[i] is Column) && well_named(
        limit,
        columns[i],
    ) by {
        assert(columns[i] == row[i + 2]);
        if i >= 2 {
            assert(row[i + 2] == field_columns(exported_fields(change))[i - 2]);
        }
    }
    assert(well_named(limit, row[0]) && well_named(limit, row[1]));
    assert(symbol.last() == row[1]);
    lemma_columns_recordable(symbol, limit, columns);
    let filled = symbol + columns;
    assert(filled.last() == columns.last());
    assert(end.skip(1) =~= Seq::empty());
    assert(all_recordable(filled.push(end[0]), limit, end.skip(1)));
    assert(all_recordable(filled, limit, end));
    lemma_recordable_append(symbol, limit, columns, end);
    let body = columns + end;
    let first = row.skip(1);
    assert(first.skip(1) =~= body);
    assert(first[0] == row[1]);
    assert(table.last() == row[0]);
    assert(all_recordable(table, limit, first));
    assert((before + row).last() == row.last());
}

/// On a buffer where a row may begin, the rows of valid changes are all recorded.
pub proof fn valid_rows_are_recordable(
    before: Seq<Entry>,
    limit: nat,
    prefix: Seq<char>,
    namespace: Seq<char>,
    changes: Seq<EntityChange>,
)
    requires
        limit >= 12,
        at_row_boundary(before),
        forall|i: int|
            0 <= i < changes.len() ==> row_is_valid(prefix, namespace, limit, #[trigger] changes[i]),
    ensures
        all_recordable(before, limit, rows_entries(prefix, namespace, changes)),
        at_row_boundary(before + rows_entries(prefix, namespace, changes)),
    decreases changes.len(),
{
    if changes.len() > 0 {
        let row = row_entries(prefix, namespace, changes[0]);
        let rest = rows_entries(prefix, namespace, changes.skip(1));
        valid_row_is_recordable(before, limit, prefix, namespace, changes[0]);
        valid_rows_are_recordable(before + row, limit, prefix, namespace, changes.skip(1));
        lemma_recordable_append(before, limit, row, rest);
        assert(before + row + rest =~= before + (row + rest));
    } else {
        assert(before + Seq::<Entry>::empty() =~= before);
    }
}

/// Where all entries can be recorded, writing stops only for doubles, and once the double is
/// recorded all entries that remain can be recorded again.
pub proof fn recordable_entries_are_never_refused(before: Seq<Entry>, limit: nat, todo: Seq<Entry>)
    requires
        all_recordable(before, limit, todo),
    ensures
        ({
            let count = recorded_count(before, limit, todo) as int;
            &&& count <= todo.len()
            &&& count < todo.len() ==> is_double(todo[count]) && all_recordable(
                before + todo.take(count) + seq![todo[count]],
                limit,
                todo.skip(count + 1),
            )
        }),
    decreases todo.len(),
{
    let count = recorded_count(before, limit, todo) as int;
    if todo.len() > 0 {
        if is_double(todo[0]) {
            assert(before + todo.take(0) + seq![todo[0]] =~= before.push(todo[0]));
        } else {
            let tail = todo.skip(1);
            recordable_entries_are_never_refused(before.push(todo[0]), limit, tail);
            if count < todo.len() {
                assert(tail[count - 1] == todo[count]);
                assert(before.push(todo[0]) + tail.take(count - 1) + seq![tail[count - 1]] =~= before
                    + todo.take(count) + seq![todo[count]]);
                assert(tail.skip(count) =~= todo.skip(count + 1));
            }
        }
    }
}

/// A job whose names the buffer takes and whose times are not negative is never refused: from the
/// start, on a buffer where a row may begin, `write_job` stops only for doubles.
pub proof fn valid_job_is_never_refused(
    before: Seq<Entry>,
    limit: nat,
    prefix: Seq<char>,
    job: WriteJob,
    cursor: JobCursor,
)
    requires
        limit >= 12,
        at_row_boundary(before),
        forall|i: int|
            0 <= i < job.changes@.len() ==> row_is_valid(
                prefix,
                job.namespace@,
                limit,
                #[trigger] job.changes@[i],
            ),
        cursor.row() == 0,
        !cursor.started(),
        cursor.field() == 0,
    ensures
        ({
            let todo = remaining(prefix, job, cursor);
            let count = recorded_count(before, limit, todo) as int;
            count == todo.len() || is_double(todo[count]) && all_recordable(
                before + todo.take(count) + seq![todo[count]],
                limit,
                todo.skip(count + 1),
            )
        }),
        at_row_boundary(before + remaining(prefix, job, cursor)),
{
    start_has_the_whole_job_before_it(prefix, job, cursor);
    valid_rows_are_recordable(before, limit, prefix, job.namespace@, job.changes@);
    recordable_entries_are_never_refused(before, limit, remaining(prefix, job, cursor));
}

/// Tables tell namespaces and entity types apart, as long as namespaces have no underscore.
pub proof fn tables_identify_entity_types(
    prefix: Seq<char>,
    left_namespace: Seq<char>,
    left_type: Seq<char>,
    right_namespace: Seq<char>,
    right_type: Seq<char>,
)
    requires
        !left_namespace.contains('_'),
        !right_namespace.contains('_'),
        table_name(prefix, left_namespace, left_type) == table_name(
            prefix,
            right_namespace,
            right_type,
        ),
    ensures
        left_namespace == right_namespace,
        left_type == right_type,
{
    let left = table_name(prefix, left_namespace, left_type);
    let right = table_name(prefix, right_namespace, right_type);
    let start = prefix.len() as int;
    let a = left_namespace.len() as int;
    let b = right_namespace.len() as int;
    assert(left[start + a] == '_');
    assert(right[start + b] == '_');
    if a < b {
        assert(right[start + a] == right_namespace[a]);
    } else if b < a {
        assert(left[start + b] == left_namespace[b]);
    }
    assert(left_namespace =~= left.subrange(start, start + a));
    assert(right_namespace =~= right.subrange(start, start + b));
    assert(left_type =~= left.skip(start + a + 1));
    assert(right_type =~= right.skip(start + b + 1));
}

} // verus!
