//! What a job leaves in the buffer, said of its changes and of their fields.

use crate::entity::{Decimal, Value};
use crate::export::{append_value, remaining, write_job, Appended, JobCursor, Progress};
use crate::ilp::{
    buffer_entries, buffer_name_limit, recorded, refusal, refusal_message, ColumnValue, Entry,
    WriteError,
};
use crate::job::WriteJob;
use crate::row_laws::{
    ended_rows, field_columns_are_sorted, field_columns_come_from_fields, fields_make_columns,
    one_row_per_change, row_has_one_of_each_meta_column, start_has_the_whole_job_before_it,
};
use crate::rows::{
    exported_fields, field_columns, is_meta_column, recorded_count, refused, row_entries,
    rows_entries, value_column,
};
use crate::sink::{EntityChange, EntityChangeOperation};
use crate::text::{list_text, precedes};
use questdb::ingress::Buffer;
use vstd::prelude::*;

verus! {

/// Texts are exported as string columns with all of their characters.
pub proof fn texts_make_string_columns(text: String)
    ensures
        value_column(Value::String(text)) == Some(ColumnValue::Str(text@)),
        value_column(Value::Bytes(text)) == Some(ColumnValue::Str(text@)),
        value_column(Value::BigInt(text)) == Some(ColumnValue::Str(text@)),
        value_column(Value::Timestamp(text)) == Some(ColumnValue::Str(text@)),
{
}

/// Integers of either width are exported as long columns with the same number.
pub proof fn integers_make_long_columns(short: i32, long: i64)
    ensures
        value_column(Value::Int(short)) matches Some(ColumnValue::Long(number)) && number == short,
        value_column(Value::Int8(long)) == Some(ColumnValue::Long(long)),
{
}

/// Flags are exported as boolean columns with the same flag.
pub proof fn flags_make_boolean_columns(flag: bool)
    ensures
        value_column(Value::Bool(flag)) == Some(ColumnValue::Bool(flag)),
{
}

/// A decimal that reads as a finite double, one whose exponent bits are not all set, is exported as
/// that double, bit for bit; any other as a string column with all of its text.
pub proof fn decimals_make_doubles_if_finite(decimal: Decimal)
    ensures
        decimal.double matches Some(bits) ==> (bits / 0x10_0000_0000_0000) % 0x800 != 0x7ff
            ==> value_column(Value::BigDecimal(decimal)) == Some(ColumnValue::Double(bits)),
        decimal.double matches Some(bits) ==> (bits / 0x10_0000_0000_0000) % 0x800 == 0x7ff
            ==> value_column(Value::BigDecimal(decimal)) == Some(ColumnValue::Str(decimal.text@)),
        decimal.double is None ==> value_column(Value::BigDecimal(decimal)) == Some(
            ColumnValue::Str(decimal.text@),
        ),
{
    if let Some(bits) = decimal.double {
        assert((bits % 0x8000_0000_0000_0000 < 0x7ff0_0000_0000_0000) == ((bits
            / 0x10_0000_0000_0000) % 0x800 != 0x7ff)) by (bit_vector);
    }
}

/// A list is exported as a string column with the text that `list_text` makes of all its items.
pub proof fn lists_make_string_columns(items: Vec<String>, text: String)
    requires
        call_ensures(list_text, (&items,), text),
    ensures
        value_column(Value::List(items)) == Some(ColumnValue::Str(text@)),
{
}

/// The column of a list begins and ends with a bracket, and has one more item behind a comma and a
/// blank for one more item in the list.
pub proof fn lists_are_exported_item_by_item(items: Vec<String>, longer: Vec<String>)
    requires
        longer@.len() == items@.len() + 1,
        longer@.drop_last() == items@,
    ensures
        items@.len() == 0 ==> value_column(Value::List(items)) == Some(
            ColumnValue::Str(seq!['[', ']']),
        ),
        items@.len() == 0 ==> value_column(Value::List(longer)) == Some(
            ColumnValue::Str(seq!['['] + longer@[0]@ + seq![']']),
        ),
        items@.len() > 0 ==> {
            let before = value_column(Value::List(items)).unwrap()->Str_0;
            value_column(Value::List(longer)) == Some(
                ColumnValue::Str(
                    before.drop_last() + seq![',', ' '] + longer@.last()@ + seq![']'],
                ),
            )
        },
{
    if items@.len() == 0 {
        assert(value_column(Value::List(items)).unwrap()->Str_0 =~= seq!['[', ']']);
    } else {
        let before = value_column(Value::List(items)).unwrap()->Str_0;
        assert(value_column(Value::List(longer)).unwrap()->Str_0 =~= before.drop_last() + seq![
            ',',
            ' ',
        ] + longer@.last()@ + seq![']']);
    }
}

/// Only null makes no column.
pub proof fn only_null_is_left_out(value: Value)
    ensures
        value_column(value) is None <==> value is Null,
{
}

/// Whether the row stands in the entries from one position up to the other.
spec fn stands_at(entries: Seq<Entry>, from: int, to: int, row: Seq<Entry>) -> bool {
    &&& 0 <= from
    &&& to <= entries.len()
    &&& to - from == row.len()
    &&& forall|k: int| from <= k < to ==> #[trigger] entries[k] == row[k - from]
}

/// Whether the rows of the changes stand in the entries one after the other.
spec fn splits(
    prefix: Seq<char>,
    namespace: Seq<char>,
    changes: Seq<EntityChange>,
    entries: Seq<Entry>,
    starts: Seq<int>,
) -> bool {
    &&& starts.len() == changes.len() + 1
    &&& starts[0] == 0
    &&& starts.last() == entries.len()
    &&& forall|i: int| #![trigger changes[i]]
        0 <= i < changes.len() ==> stands_at(
            entries,
            starts[i],
            starts[i + 1],
            row_entries(prefix, namespace, changes[i]),
        )
}

/// Where the rows of changes begin in their entries; the last position is the end.
proof fn lemma_rows_split(prefix: Seq<char>, namespace: Seq<char>, changes: Seq<EntityChange>) -> (starts:
    Seq<int>)
    ensures
        splits(prefix, namespace, changes, rows_entries(prefix, namespace, changes), starts),
    decreases changes.len(),
{
    if changes.len() == 0 {
        seq![0int]
    } else {
        let row = row_entries(prefix, namespace, changes[0]);
        let tail = changes.skip(1);
        let rest = rows_entries(prefix, namespace, tail);
        let all = rows_entries(prefix, namespace, changes);
        let later = lemma_rows_split(prefix, namespace, tail);
        let starts = seq![0int] + later.map_values(|at: int| at + row.len());
        assert(all == row + rest);
        assert forall|i: int| #![trigger changes[i]] 0 <= i < changes.len() implies stands_at(
            all,
            starts[i],
            starts[i + 1],
            row_entries(prefix, namespace, changes[i]),
        ) by {
            if i == 0 {
                assert(starts[1] == row.len());
            } else {
                let from = later[i - 1];
                let to = later[i];
                let own = row_entries(prefix, namespace, changes[i]);
                assert(tail[i - 1] == changes[i]);
                assert(stands_at(rest, from, to, own));
                assert(starts[i] == from + row.len() && starts[i + 1] == to + row.len());
                assert forall|k: int| starts[i] <= k < starts[i + 1] implies #[trigger] all[k]
                    == own[k - starts[i]] by {
                    assert(all[k] == rest[k - row.len()]);
                }
            }
        }
        starts
    }
}

/// What the row of a change begins and ends with.
proof fn lemma_row_frame(
    prefix: Seq<char>,
    namespace: Seq<char>,
    change: EntityChange,
    entries: Seq<Entry>,
    from: int,
    to: int,
)
    requires
        stands_at(entries, from, to, row_entries(prefix, namespace, change)),
    ensures
        0 <= from,
        from + 5 <= to <= entries.len(),
        entries[from] == Entry::Table(prefix + namespace + seq!['_'] + change.entity_type.name@),
        entries[from + 1] == Entry::Symbol(
            seq!['o', 'p'],
            match change.operation {
                EntityChangeOperation::Insert => seq!['i', 'n', 's', 'e', 'r', 't'],
                EntityChangeOperation::Overwrite => seq![
                    'o',
                    'v',
                    'e',
                    'r',
                    'w',
                    'r',
                    'i',
                    't',
                    'e',
                ],
                EntityChangeOperation::Remove => seq!['r', 'e', 'm', 'o', 'v', 'e'],
            },
        ),
        entries[from + 2] == Entry::Column("id"@, ColumnValue::Str(change.id@)),
        entries[from + 3] matches Entry::Column(name, ColumnValue::Long(number)) && name
            == "block_number"@ && number == change.block_number,
        entries[to - 1] matches Entry::At(nanos) && (i64::MIN <= change.block_time.seconds
            * 1_000_000_000 <= i64::MAX ==> nanos == change.block_time.seconds * 1_000_000_000),
        change.operation is Remove || change.data is None ==> to == from + 5,
{
    let row = row_entries(prefix, namespace, change);
    row_has_one_of_each_meta_column(prefix, namespace, change);
    reveal_strlit("op");
    reveal_strlit("insert");
    reveal_strlit("overwrite");
    reveal_strlit("remove");
    assert("op"@ =~= seq!['o', 'p']);
    assert("insert"@ =~= seq!['i', 'n', 's', 'e', 'r', 't']);
    assert("overwrite"@ =~= seq!['o', 'v', 'e', 'r', 'w', 'r', 'i', 't', 'e']);
    assert("remove"@ =~= seq!['r', 'e', 'm', 'o', 'v', 'e']);
    assert(entries[from] == row[0]);
    assert(entries[from + 1] == row[1]);
    assert(entries[from + 2] == row[2]);
    assert(entries[from + 3] == row[3]);
    assert(entries[to - 1] == row.last());
}

/// A column between head and end of a change's row is that of one of the entity's fields.
proof fn lemma_row_column(
    prefix: Seq<char>,
    namespace: Seq<char>,
    change: EntityChange,
    entries: Seq<Entry>,
    from: int,
    to: int,
    k: int,
)
    requires
        stands_at(entries, from, to, row_entries(prefix, namespace, change)),
        from + 4 <= k < to - 1,
    ensures
        entries[k] matches Entry::Column(name, column) && name != "id"@ && name != "block_number"@,
        exists|j: int|
            0 <= j < change.data.unwrap().fields().len() && entries[k]->Column_0 == (
            #[trigger] change.data.unwrap().fields()[j]).0@ && Some(entries[k]->Column_1)
                == value_column(change.data.unwrap().fields()[j].1),
        entries[k] == field_columns(exported_fields(change))[k - from - 4],
{
    let fields = exported_fields(change);
    let at = k - from - 4;
    assert(entries[k] == row_entries(prefix, namespace, change)[k - from]);
    assert(entries[k] == field_columns(fields)[at]);
    field_columns_come_from_fields(fields, at);
    let j = choose|j: int|
        0 <= j < fields.len() && !is_meta_column(#[trigger] fields[j].0@) && value_column(
            fields[j].1,
        ) is Some && field_columns(fields)[at] == Entry::Column(
            fields[j].0@,
            value_column(fields[j].1).unwrap(),
        );
    assert(change.data.unwrap().fields()[j] == fields[j]);
}

/// A field of the entity has its column between head and end of the change's row.
proof fn lemma_row_field(
    prefix: Seq<char>,
    namespace: Seq<char>,
    change: EntityChange,
    entries: Seq<Entry>,
    from: int,
    to: int,
    j: int,
)
    requires
        stands_at(entries, from, to, row_entries(prefix, namespace, change)),
        !(change.operation is Remove),
        change.data is Some,
        0 <= j < change.data.unwrap().fields().len(),
        change.data.unwrap().fields()[j].0@ != "id"@,
        change.data.unwrap().fields()[j].0@ != "block_number"@,
        !(change.data.unwrap().fields()[j].1 is Null),
    ensures
        exists|k: int|
            from + 4 <= k < to - 1 && #[trigger] entries[k] == Entry::Column(
                change.data.unwrap().fields()[j].0@,
                value_column(change.data.unwrap().fields()[j].1).unwrap(),
            ),
{
    let fields = exported_fields(change);
    let columns = field_columns(fields);
    let entry = Entry::Column(fields[j].0@, value_column(fields[j].1).unwrap());
    fields_make_columns(fields, j);
    let at = choose|at: int| 0 <= at < columns.len() && columns[at] == entry;
    assert(entries[from + 4 + at] == row_entries(prefix, namespace, change)[4 + at]);
    assert(entries[from + 4 + at] == entry);
}

/// The columns between head and end of a change's row are in the order of their names.
proof fn lemma_row_sorted(
    prefix: Seq<char>,
    namespace: Seq<char>,
    change: EntityChange,
    entries: Seq<Entry>,
    from: int,
    to: int,
    k: int,
    l: int,
)
    requires
        stands_at(entries, from, to, row_entries(prefix, namespace, change)),
        from + 4 <= k < l < to - 1,
        forall|a: int, b: int|
            0 <= a < b < change.data.unwrap().fields().len() ==> precedes(
                #[trigger] change.data.unwrap().fields()[a].0@,
                #[trigger] change.data.unwrap().fields()[b].0@,
            ),
    ensures
        precedes(entries[k]->Column_0, entries[l]->Column_0),
{
    lemma_row_column(prefix, namespace, change, entries, from, to, k);
    lemma_row_column(prefix, namespace, change, entries, from, to, l);
    field_columns_are_sorted(exported_fields(change), k - from - 4, l - from - 4);
}

/// The entries that a job has before it at the start are one row for each change, in the order of
/// the changes. The row of a change names its table, its operation, its id, its block number, and at
/// the end the time of its block. The row of a removal, or of a change without data, has nothing
/// else.
pub proof fn each_change_has_its_row(prefix: Seq<char>, job: WriteJob, cursor: JobCursor) -> (starts:
    Seq<int>)
    requires
        call_ensures(JobCursor::start, (), cursor),
    ensures
        cursor.fits(job),
        starts.len() == job.changes@.len() + 1,
        starts[0] == 0,
        starts.last() == remaining(prefix, job, cursor).len(),
        forall|i: int| #![trigger job.changes@[i]]
            0 <= i < job.changes@.len() ==> {
                let entries = remaining(prefix, job, cursor);
                let change = job.changes@[i];
                let from = starts[i];
                let to = starts[i + 1];
                &&& 0 <= from
                &&& from + 5 <= to <= entries.len()
                &&& entries[from] == Entry::Table(
                    prefix + job.namespace@ + seq!['_'] + change.entity_type.name@,
                )
                &&& entries[from + 1] == Entry::Symbol(
                    seq!['o', 'p'],
                    match change.operation {
                        EntityChangeOperation::Insert => seq!['i', 'n', 's', 'e', 'r', 't'],
                        EntityChangeOperation::Overwrite => seq![
                            'o',
                            'v',
                            'e',
                            'r',
                            'w',
                            'r',
                            'i',
                            't',
                            'e',
                        ],
                        EntityChangeOperation::Remove => seq!['r', 'e', 'm', 'o', 'v', 'e'],
                    },
                )
                &&& entries[from + 2] == Entry::Column("id"@, ColumnValue::Str(change.id@))
                &&& entries[from + 3] matches Entry::Column(name, ColumnValue::Long(number))
                    && name == "block_number"@ && number == change.block_number
                &&& entries[to - 1] matches Entry::At(nanos) && (i64::MIN
                    <= change.block_time.seconds * 1_000_000_000 <= i64::MAX ==> nanos
                    == change.block_time.seconds * 1_000_000_000)
                &&& change.operation is Remove || change.data is None ==> to == from + 5
            },
{
    let changes = job.changes@;
    let namespace = job.namespace@;
    let entries = remaining(prefix, job, cursor);
    start_has_the_whole_job_before_it(prefix, job, cursor);
    let starts = lemma_rows_split(prefix, namespace, changes);
    assert forall|i: int| #![trigger job.changes@[i]] 0 <= i < job.changes@.len() implies {
        let entries = remaining(prefix, job, cursor);
        let change = job.changes@[i];
        let from = starts[i];
        let to = starts[i + 1];
        &&& 0 <= from
        &&& from + 5 <= to <= entries.len()
        &&& entries[from] == Entry::Table(
            prefix + job.namespace@ + seq!['_'] + change.entity_type.name@,
        )
        &&& entries[from + 1] == Entry::Symbol(
            seq!['o', 'p'],
            match change.operation {
                EntityChangeOperation::Insert => seq!['i', 'n', 's', 'e', 'r', 't'],
                EntityChangeOperation::Overwrite => seq![
                    'o',
                    'v',
                    'e',
                    'r',
                    'w',
                    'r',
                    'i',
                    't',
                    'e',
                ],
                EntityChangeOperation::Remove => seq!['r', 'e', 'm', 'o', 'v', 'e'],
            },
        )
        &&& entries[from + 2] == Entry::Column("id"@, ColumnValue::Str(change.id@))
        &&& entries[from + 3] matches Entry::Column(name, ColumnValue::Long(number)) && name
            == "block_number"@ && number == change.block_number
        &&& entries[to - 1] matches Entry::At(nanos) && (i64::MIN <= change.block_time.seconds
            * 1_000_000_000 <= i64::MAX ==> nanos == change.block_time.seconds * 1_000_000_000)
        &&& change.operation is Remove || change.data is None ==> to == from + 5
    } by {
        lemma_row_frame(prefix, namespace, changes[i], entries, starts[i], starts[i + 1]);
    }
    starts
}

/// The rows of changes are those before a change, its own and those behind it.
proof fn lemma_rows_around(prefix: Seq<char>, namespace: Seq<char>, changes: Seq<EntityChange>, i: int)
    requires
        0 <= i < changes.len(),
    ensures
        rows_entries(prefix, namespace, changes) == rows_entries(prefix, namespace, changes.take(i))
            + row_entries(prefix, namespace, changes[i]) + rows_entries(
            prefix,
            namespace,
            changes.skip(i + 1),
        ),
    decreases changes.len(),
{
    let all = rows_entries(prefix, namespace, changes);
    let row = row_entries(prefix, namespace, changes[i]);
    let behind = rows_entries(prefix, namespace, changes.skip(i + 1));
    let before = rows_entries(prefix, namespace, changes.take(i));
    if i == 0 {
        assert(changes.take(0) =~= Seq::empty());
        assert(all =~= before + row + behind);
    } else {
        let tail = changes.skip(1);
        lemma_rows_around(prefix, namespace, tail, i - 1);
        assert(changes.take(i).skip(1) =~= tail.take(i - 1));
        assert(tail.skip(i) =~= changes.skip(i + 1));
        assert(all =~= before + row + behind);
    }
}

proof fn lemma_ended_rows_are_counted(entries: Seq<Entry>)
    ensures
        ended_rows(entries) == entries.filter(|entry: Entry| entry is At).len(),
    decreases entries.len(),
{
    reveal(Seq::filter);
    if entries.len() > 0 {
        lemma_ended_rows_are_counted(entries.drop_last());
    }
}

/// The row of the change at `i` comes right behind `i` ended rows and has one end itself. Its columns
/// between the block number and the end are those of the fields of the change's entity: one for each
/// field that is not null and is not called `id` or `block_number`, none besides, and in the order
/// of their names. Only a change that has data and is no removal has such columns.
pub proof fn row_of_a_change_has_its_fields(
    prefix: Seq<char>,
    job: WriteJob,
    cursor: JobCursor,
    i: int,
) -> (range: (int, int))
    requires
        call_ensures(JobCursor::start, (), cursor),
        0 <= i < job.changes@.len(),
    ensures
        0 <= range.0,
        range.0 + 5 <= range.1 <= remaining(prefix, job, cursor).len(),
        remaining(prefix, job, cursor).take(range.0).filter(|entry: Entry| entry is At).len() == i,
        range.0 > 0 ==> remaining(prefix, job, cursor)[range.0 - 1] is At,
        remaining(prefix, job, cursor)[range.1 - 1] is At,
        forall|k: int|
            range.0 + 4 <= k < range.1 - 1 ==> {
                let entry = #[trigger] remaining(prefix, job, cursor)[k];
                &&& entry matches Entry::Column(name, column) && name != "id"@ && name
                    != "block_number"@
                &&& exists|j: int|
                    0 <= j < job.changes@[i].data.unwrap().fields().len() && entry->Column_0 == (
                    #[trigger] job.changes@[i].data.unwrap().fields()[j]).0@ && Some(entry->Column_1)
                        == value_column(job.changes@[i].data.unwrap().fields()[j].1)
            },
        job.changes@[i].operation is Remove || job.changes@[i].data is None ==> range.1 == range.0 + 5,
        !(job.changes@[i].operation is Remove) && job.changes@[i].data is Some ==> forall|j: int|
            {
                let field = #[trigger] job.changes@[i].data.unwrap().fields()[j];
                &&& 0 <= j < job.changes@[i].data.unwrap().fields().len()
                &&& field.0@ != "id"@
                &&& field.0@ != "block_number"@
                &&& !(field.1 is Null)
            } ==> exists|k: int|
                range.0 + 4 <= k < range.1 - 1 && #[trigger] remaining(prefix, job, cursor)[k]
                    == Entry::Column(
                    job.changes@[i].data.unwrap().fields()[j].0@,
                    value_column(job.changes@[i].data.unwrap().fields()[j].1).unwrap(),
                ),
        (forall|a: int, b: int|
            0 <= a < b < job.changes@[i].data.unwrap().fields().len() ==> precedes(
                #[trigger] job.changes@[i].data.unwrap().fields()[a].0@,
                #[trigger] job.changes@[i].data.unwrap().fields()[b].0@,
            )) ==> forall|k: int, l: int|
            range.0 + 4 <= k < l < range.1 - 1 ==> precedes(
                #[trigger] remaining(prefix, job, cursor)[k]->Column_0,
                #[trigger] remaining(prefix, job, cursor)[l]->Column_0,
            ),
{
    let change = job.changes@[i];
    let entries = remaining(prefix, job, cursor);
    let range = lemma_row_range(prefix, job, cursor, i);
    lemma_row_frame(prefix, job.namespace@, change, entries, range.0, range.1);
    assert forall|k: int| range.0 + 4 <= k < range.1 - 1 implies {
        let entry = #[trigger] entries[k];
        &&& entry matches Entry::Column(name, column) && name != "id"@ && name != "block_number"@
        &&& exists|j: int|
            0 <= j < job.changes@[i].data.unwrap().fields().len() && entry->Column_0 == (
            #[trigger] job.changes@[i].data.unwrap().fields()[j]).0@ && Some(entry->Column_1)
                == value_column(job.changes@[i].data.unwrap().fields()[j].1)
    } by {
        lemma_row_column(prefix, job.namespace@, change, entries, range.0, range.1, k);
    }
    if !(change.operation is Remove) && change.data is Some {
        assert forall|j: int|
            {
                let field = #[trigger] job.changes@[i].data.unwrap().fields()[j];
                &&& 0 <= j < job.changes@[i].data.unwrap().fields().len()
                &&& field.0@ != "id"@
                &&& field.0@ != "block_number"@
                &&& !(field.1 is Null)
            } implies exists|k: int|
            range.0 + 4 <= k < range.1 - 1 && #[trigger] remaining(prefix, job, cursor)[k]
                == Entry::Column(
                job.changes@[i].data.unwrap().fields()[j].0@,
                value_column(job.changes@[i].data.unwrap().fields()[j].1).unwrap(),
            ) by {
            lemma_row_field(prefix, job.namespace@, change, entries, range.0, range.1, j);
        }
    }
    if forall|a: int, b: int|
        0 <= a < b < job.changes@[i].data.unwrap().fields().len() ==> precedes(
            #[trigger] job.changes@[i].data.unwrap().fields()[a].0@,
            #[trigger] job.changes@[i].data.unwrap().fields()[b].0@,
        ) {
        assert forall|k: int, l: int| range.0 + 4 <= k < l < range.1 - 1 implies precedes(
            #[trigger] entries[k]->Column_0,
            #[trigger] entries[l]->Column_0,
        ) by {
            lemma_row_sorted(prefix, job.namespace@, change, entries, range.0, range.1, k, l);
        }
    }
    range
}

/// Where the row of a change stands.
proof fn lemma_row_range(prefix: Seq<char>, job: WriteJob, cursor: JobCursor, i: int) -> (range: (
    int,
    int,
))
    requires
        call_ensures(JobCursor::start, (), cursor),
        0 <= i < job.changes@.len(),
    ensures
        stands_at(
            remaining(prefix, job, cursor),
            range.0,
            range.1,
            row_entries(prefix, job.namespace@, job.changes@[i]),
        ),
        remaining(prefix, job, cursor).take(range.0).filter(|entry: Entry| entry is At).len() == i,
        range.0 > 0 ==> remaining(prefix, job, cursor)[range.0 - 1] is At,
{
    let changes = job.changes@;
    let namespace = job.namespace@;
    let entries = remaining(prefix, job, cursor);
    let before = rows_entries(prefix, namespace, changes.take(i));
    let row = row_entries(prefix, namespace, changes[i]);
    start_has_the_whole_job_before_it(prefix, job, cursor);
    lemma_rows_around(prefix, namespace, changes, i);
    let from = before.len() as int;
    assert(entries.take(from) =~= before);
    one_row_per_change(prefix, namespace, changes.take(i));
    lemma_ended_rows_are_counted(before);
    if from > 0 {
        let last = changes.take(i).len() - 1;
        lemma_rows_around(prefix, namespace, changes.take(i), last);
        assert(changes.take(i).skip(last + 1) =~= Seq::empty());
        row_has_one_of_each_meta_column(prefix, namespace, changes.take(i)[last]);
        assert(before.last() is At);
        assert(entries[from - 1] == before.last());
    }
    (from, from + row.len())
}

/// A buffer records entries one after the other, up to the first that holds a double or that it
/// refuses in its place.
pub proof fn recording_stops_at_the_first_double_or_refusal(
    before: Seq<Entry>,
    limit: nat,
    todo: Seq<Entry>,
)
    ensures
        ({
            let count = recorded_count(before, limit, todo) as int;
            &&& 0 <= count <= todo.len()
            &&& forall|k: int|
                0 <= k < count ==> !(#[trigger] todo[k] matches Entry::Column(
                    _,
                    ColumnValue::Double(_),
                )) && refusal(before + todo.take(k), limit, todo[k]) is None
            &&& count < todo.len() ==> (todo[count] matches Entry::Column(
                _,
                ColumnValue::Double(_),
            )) || refusal(before + todo.take(count), limit, todo[count]) is Some
        }),
    decreases todo.len(),
{
    let count = recorded_count(before, limit, todo) as int;
    assert(before + todo.take(0) =~= before);
    if count > 0 {
        let next = before.push(todo[0]);
        let tail = todo.skip(1);
        recording_stops_at_the_first_double_or_refusal(next, limit, tail);
        assert forall|k: int| 0 <= k < count implies !(#[trigger] todo[k] matches Entry::Column(
            _,
            ColumnValue::Double(_),
        )) && refusal(before + todo.take(k), limit, todo[k]) is None by {
            if k > 0 {
                assert(tail[k - 1] == todo[k]);
                assert(next + tail.take(k - 1) =~= before + todo.take(k));
            }
        }
        if count < todo.len() {
            assert(tail[count - 1] == todo[count]);
            assert(next + tail.take(count - 1) =~= before + todo.take(count));
        }
    }
}

/// An error is the buffer's own, in kind and in words, about the first entry that it did not record;
/// and that entry holds no double.
pub proof fn errors_are_the_buffers_own(
    before: Seq<Entry>,
    limit: nat,
    todo: Seq<Entry>,
    error: WriteError,
)
    requires
        refused(before, limit, todo, error),
    ensures
        ({
            let count = recorded_count(before, limit, todo) as int;
            &&& count < todo.len()
            &&& !(todo[count] matches Entry::Column(_, ColumnValue::Double(_)))
            &&& refusal(before + todo.take(count), limit, todo[count]) == Some(error.kind)
            &&& error.message@ == refusal_message(before + todo.take(count), limit, todo[count])
        }),
{
}

/// A call that is to record an entry adds it behind all others if the buffer does not refuse it, and
/// otherwise changes nothing and hands the refusal on.
pub proof fn an_entry_is_added_or_refused(
    before: Seq<Entry>,
    after: Seq<Entry>,
    limit: nat,
    entry: Entry,
    message: Seq<char>,
    result: Result<(), WriteError>,
)
    requires
        recorded(before, after, limit, entry, message, result),
    ensures
        result is Ok <==> refusal(before, limit, entry) is None,
        result is Ok ==> after == before.push(entry),
        result matches Err(error) ==> after == before && refusal(before, limit, entry) == Some(
            error.kind,
        ) && error.message@ == message,
{
}

/// A job that is written from the start in several calls, with a double recorded by the caller after
/// each but the last, leaves in the buffer all that the job had before it at the start, behind what
/// was there. `counts[i]` is how many entries the call at `i` recorded.
pub proof fn finished_job_is_written_whole(
    prefix: Seq<char>,
    job: WriteJob,
    limit: nat,
    buffers: Seq<Seq<Entry>>,
    cursors: Seq<JobCursor>,
    counts: Seq<int>,
)
    requires
        buffers.len() == counts.len() + 1,
        cursors.len() == counts.len() + 1,
        forall|i: int|
            0 <= i < counts.len() ==> {
                let todo = remaining(prefix, job, cursors[i]);
                &&& #[trigger] counts[i] == recorded_count(buffers[i], limit, todo)
                &&& counts[i] < todo.len()
                &&& buffers[i + 1] == buffers[i] + todo.take(counts[i]) + seq![todo[counts[i]]]
                &&& remaining(prefix, job, cursors[i + 1]) == todo.skip(counts[i] + 1)
            },
    ensures
        buffers.last() + remaining(prefix, job, cursors.last()) == buffers[0] + remaining(
            prefix,
            job,
            cursors[0],
        ),
    decreases counts.len(),
{
    if counts.len() > 0 {
        let last = counts.len() - 1;
        let earlier = counts.drop_last();
        assert forall|i: int| 0 <= i < earlier.len() implies {
            let todo = remaining(prefix, job, cursors.drop_last()[i]);
            &&& #[trigger] earlier[i] == recorded_count(buffers.drop_last()[i], limit, todo)
            &&& earlier[i] < todo.len()
            &&& buffers.drop_last()[i + 1] == buffers.drop_last()[i] + todo.take(earlier[i]) + seq![
                todo[earlier[i]],
            ]
            &&& remaining(prefix, job, cursors.drop_last()[i + 1]) == todo.skip(earlier[i] + 1)
        } by {
            assert(counts[i] == earlier[i]);
        }
        finished_job_is_written_whole(
            prefix,
            job,
            limit,
            buffers.drop_last(),
            cursors.drop_last(),
            earlier,
        );
        let todo = remaining(prefix, job, cursors[last]);
        let count = counts[last];
        lemma_paused(buffers[last], todo, count);
    }
}

/// What stands before an entry, the entry and what stands behind it make up the whole.
proof fn lemma_paused(before: Seq<Entry>, todo: Seq<Entry>, at: int)
    requires
        0 <= at < todo.len(),
    ensures
        before + todo.take(at) + seq![todo[at]] + todo.skip(at + 1) == before + todo,
{
    assert(before + todo.take(at) + seq![todo[at]] + todo.skip(at + 1) =~= before + todo);
}

/// Appending a field records a column that has its name and its value, or hands the buffer's refusal
/// of that column on and records nothing: a string with the whole text for texts, a long for
/// integers, a boolean for flags, a string for a decimal that is not a finite double. A finite double
/// is handed to the caller, and null is passed over.
pub proof fn fields_are_appended_by_kind(
    buffer: &mut Buffer,
    name: &str,
    value: Value,
    result: Result<Appended, WriteError>,
    list: String,
)
    requires
        call_ensures(append_value, (buffer, name, &value), result),
        value matches Value::List(items) ==> call_ensures(list_text, (&items,), list),
    ensures
        ({
            let before = buffer_entries(*old(buffer));
            let after = buffer_entries(*final(buffer));
            let limit = buffer_name_limit(*old(buffer));
            let handed_over = value matches Value::BigDecimal(decimal) && decimal.double is Some && (
            decimal.double.unwrap() / 0x10_0000_0000_0000) % 0x800 != 0x7ff;
            if value is Null {
                result == Ok::<Appended, WriteError>(Appended::Done) && after == before
            } else if handed_over {
                result == Ok::<Appended, WriteError>(
                    Appended::Double(value->BigDecimal_0.double.unwrap()),
                ) && after == before
            } else {
                let entry = Entry::Column(
                    name@,
                    match value {
                        Value::String(text) => ColumnValue::Str(text@),
                        Value::Bytes(text) => ColumnValue::Str(text@),
                        Value::BigInt(text) => ColumnValue::Str(text@),
                        Value::Timestamp(text) => ColumnValue::Str(text@),
                        Value::BigDecimal(decimal) => ColumnValue::Str(decimal.text@),
                        Value::List(_) => ColumnValue::Str(list@),
                        Value::Int(number) => ColumnValue::Long(number as i64),
                        Value::Int8(number) => ColumnValue::Long(number),
                        Value::Bool(flag) => ColumnValue::Bool(flag),
                        Value::Null => ColumnValue::Bool(false),
                    },
                );
                match result {
                    Ok(appended) => {
                        &&& appended is Done
                        &&& refusal(before, limit, entry) is None
                        &&& after == before.push(entry)
                    },
                    Err(error) => {
                        &&& refusal(before, limit, entry) == Some(error.kind)
                        &&& error.message@ == refusal_message(before, limit, entry)
                        &&& after == before
                    },
                }
            }
        }),
{
    if let Value::BigDecimal(decimal) = value {
        if let Some(bits) = decimal.double {
            assert((bits % 0x8000_0000_0000_0000 < 0x7ff0_0000_0000_0000) == ((bits
                / 0x10_0000_0000_0000) % 0x800 != 0x7ff)) by (bit_vector);
        }
    }
}

/// A call of `write_job` records entries that remain, in their order and behind what was there. If it
/// is complete, all of them are in the buffer; if it stops for a double, the column of that double is
/// next, and what is in the buffer, that column and what then remains are the same whole; and if it
/// fails, the error is the buffer's own about the next entry.
pub proof fn a_call_writes_what_remains(
    buffer: &mut Buffer,
    table_prefix: &str,
    job: &WriteJob,
    cursor: &mut JobCursor,
    result: Result<Progress, WriteError>,
)
    requires
        call_ensures(write_job, (buffer, table_prefix, job, cursor), result),
    ensures
        ({
            let before = buffer_entries(*old(buffer));
            let after = buffer_entries(*final(buffer));
            let limit = buffer_name_limit(*old(buffer));
            let whole = before + remaining(table_prefix@, *job, *old(cursor));
            &&& before.len() <= after.len() <= whole.len()
            &&& after == whole.take(after.len() as int)
            &&& match result {
                Ok(Progress::Complete(rows)) => after == whole && rows == job.changes@.len(),
                Ok(Progress::Double { name, bits }) => after + seq![
                    Entry::Column(name@, ColumnValue::Double(bits)),
                ] + remaining(table_prefix@, *job, *final(cursor)) == whole,
                Err(error) => {
                    &&& after.len() < whole.len()
                    &&& refusal(after, limit, whole[after.len() as int]) == Some(error.kind)
                    &&& error.message@ == refusal_message(after, limit, whole[after.len() as int])
                },
            }
        }),
{
    let before = buffer_entries(*old(buffer));
    let after = buffer_entries(*final(buffer));
    let limit = buffer_name_limit(*old(buffer));
    let todo = remaining(table_prefix@, *job, *old(cursor));
    let whole = before + todo;
    let count = recorded_count(before, limit, todo) as int;
    recording_stops_at_the_first_double_or_refusal(before, limit, todo);
    assert(after == before + todo.take(count));
    assert(after =~= whole.take(after.len() as int));
    if count < todo.len() {
        assert(whole[after.len() as int] == todo[count]);
        lemma_paused(before, todo, count);
    } else {
        assert(todo.take(count) =~= todo);
    }
}

/// A job that one call writes from start to end leaves a row for each change behind what was in the
/// buffer, in the order of the changes, each with the table, the operation, the id, the block number
/// and the block time of its own change.
pub proof fn complete_job_leaves_a_row_for_each_change(
    buffer: &mut Buffer,
    table_prefix: &str,
    job: &WriteJob,
    cursor: &mut JobCursor,
    result: Result<Progress, WriteError>,
) -> (starts: Seq<int>)
    requires
        call_ensures(JobCursor::start, (), *old(cursor)),
        call_ensures(write_job, (buffer, table_prefix, job, cursor), result),
        result matches Ok(Progress::Complete(_)),
    ensures
        starts.len() == job.changes@.len() + 1,
        starts[0] == buffer_entries(*old(buffer)).len(),
        starts.last() == buffer_entries(*final(buffer)).len(),
        buffer_entries(*final(buffer)).take(starts[0]) == buffer_entries(*old(buffer)),
        forall|i: int| #![trigger job.changes@[i]]
            0 <= i < job.changes@.len() ==> {
                let entries = buffer_entries(*final(buffer));
                let change = job.changes@[i];
                let from = starts[i];
                let to = starts[i + 1];
                &&& 0 <= from
                &&& from + 5 <= to <= entries.len()
                &&& entries[from] == Entry::Table(
                    table_prefix@ + job.namespace@ + seq!['_'] + change.entity_type.name@,
                )
                &&& entries[from + 1] matches Entry::Symbol(name, text) && name == "op"@ && text
                    == match change.operation {
                    EntityChangeOperation::Insert => "insert"@,
                    EntityChangeOperation::Overwrite => "overwrite"@,
                    EntityChangeOperation::Remove => "remove"@,
                }
                &&& entries[from + 2] == Entry::Column("id"@, ColumnValue::Str(change.id@))
                &&& entries[from + 3] matches Entry::Column(name, ColumnValue::Long(number))
                    && name == "block_number"@ && number == change.block_number
                &&& entries[to - 1] matches Entry::At(nanos) && (i64::MIN
                    <= change.block_time.seconds * 1_000_000_000 <= i64::MAX ==> nanos
                    == change.block_time.seconds * 1_000_000_000)
            },
{
    let before = buffer_entries(*old(buffer));
    let after = buffer_entries(*final(buffer));
    let todo = remaining(table_prefix@, *job, *old(cursor));
    a_call_writes_what_remains(buffer, table_prefix, job, cursor, result);
    assert(after == before + todo);
    let inner = each_change_has_its_row(table_prefix@, *job, *old(cursor));
    let starts = inner.map_values(|at: int| at + before.len());
    assert(after.take(before.len() as int) =~= before);
    assert forall|i: int| #![trigger job.changes@[i]] 0 <= i < job.changes@.len() implies {
        let change = job.changes@[i];
        let from = starts[i];
        let to = starts[i + 1];
        &&& 0 <= from
        &&& from + 5 <= to <= after.len()
        &&& after[from] == Entry::Table(
            table_prefix@ + job.namespace@ + seq!['_'] + change.entity_type.name@,
        )
        &&& after[from + 1] matches Entry::Symbol(name, text) && name == "op"@ && text
            == match change.operation {
            EntityChangeOperation::Insert => "insert"@,
            EntityChangeOperation::Overwrite => "overwrite"@,
            EntityChangeOperation::Remove => "remove"@,
        }
        &&& after[from + 2] == Entry::Column("id"@, ColumnValue::Str(change.id@))
        &&& after[from + 3] matches Entry::Column(name, ColumnValue::Long(number)) && name
            == "block_number"@ && number == change.block_number
        &&& after[to - 1] matches Entry::At(nanos) && (i64::MIN <= change.block_time.seconds
            * 1_000_000_000 <= i64::MAX ==> nanos == change.block_time.seconds * 1_000_000_000)
    } by {
        let from = inner[i];
        let to = inner[i + 1];
        let shift = before.len() as int;
        reveal_strlit("op");
        reveal_strlit("insert");
        reveal_strlit("overwrite");
        reveal_strlit("remove");
        assert("op"@ =~= seq!['o', 'p']);
        assert("insert"@ =~= seq!['i', 'n', 's', 'e', 'r', 't']);
        assert("overwrite"@ =~= seq!['o', 'v', 'e', 'r', 'w', 'r', 'i', 't', 'e']);
        assert("remove"@ =~= seq!['r', 'e', 'm', 'o', 'v', 'e']);
        assert(after[from + shift] == todo[from]);
        assert(after[from + 1 + shift] == todo[from + 1]);
        assert(after[from + 2 + shift] == todo[from + 2]);
        assert(after[from + 3 + shift] == todo[from + 3]);
        assert(after[to - 1 + shift] == todo[to - 1]);
    }
    starts
}

} // verus!
