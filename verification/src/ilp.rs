//! Recording rows in the client's line protocol buffer.

use questdb::ingress::{Buffer, TimestampNanos};
use questdb::ErrorCode;
use vstd::prelude::*;
use vstd::utf8::encode_utf8;

verus! {

/// The client's buffer of line protocol rows.
#[verifier::external_type_specification]
#[verifier::external_body]
pub struct ExBuffer(Buffer);

/// The value of a column. A double is held by its IEEE 754 bits.
pub enum ColumnValue {
    Str(Seq<char>),
    Long(i64),
    Bool(bool),
    Double(u64),
}

/// What one call records in a buffer. A row is a table, then symbols, then columns, and at its end
/// the designated timestamp in nanoseconds.
pub enum Entry {
    Table(Seq<char>),
    Symbol(Seq<char>, Seq<char>),
    Column(Seq<char>, ColumnValue),
    At(i64),
}

/// The entries that a buffer holds, in the order in which they were recorded since the buffer was
/// made or cleared.
pub uninterp spec fn buffer_entries(buffer: Buffer) -> Seq<Entry>;

/// The longest name, in bytes, that a buffer was made to accept.
pub uninterp spec fn buffer_name_limit(buffer: Buffer) -> nat;

/// Why a buffer refuses an entry.
#[derive(Clone, Copy, Debug, PartialEq, Eq, Structural)]
pub enum WriteErrorKind {
    /// A table or column name is empty, too long, or holds a character that names must not have.
    InvalidName,
    /// The entry may not follow the one before it.
    InvalidApiCall,
    /// The designated timestamp is negative.
    InvalidTimestamp,
}

/// A buffer's refusal of an entry.
#[derive(Clone, Debug)]
pub struct WriteError {
    pub kind: WriteErrorKind,
    /// The client's description of the refusal.
    pub message: String,
}

/// What `Buffer::table` says when it refuses a table name on a buffer that holds `entries`.
pub uninterp spec fn table_message(entries: Seq<Entry>, limit: nat, name: Seq<char>) -> Seq<char>;

/// What `Buffer::symbol` says when it refuses a symbol on a buffer that holds `entries`.
pub uninterp spec fn symbol_message(entries: Seq<Entry>, limit: nat, name: Seq<char>) -> Seq<char>;

/// What `Buffer::write_column_key` says when it refuses a column on a buffer that holds `entries`.
/// Every method that records a column calls it first and hands its refusal on.
pub uninterp spec fn column_message(entries: Seq<Entry>, limit: nat, name: Seq<char>) -> Seq<char>;

/// What `Buffer::at` says when it refuses to end a row on a buffer that holds `entries`.
pub uninterp spec fn at_message(entries: Seq<Entry>, nanos: i64) -> Seq<char>;

/// What a buffer that holds `entries` says when it refuses `entry`.
pub open spec fn refusal_message(entries: Seq<Entry>, limit: nat, entry: Entry) -> Seq<char> {
    match entry {
        Entry::Table(name) => table_message(entries, limit, name),
        Entry::Symbol(name, _) => symbol_message(entries, limit, name),
        Entry::Column(name, _) => column_message(entries, limit, name),
        Entry::At(nanos) => at_message(entries, nanos),
    }
}

/// Whether names of tables and of columns must not hold the character.
pub open spec fn banned_in_names(c: char) -> bool {
    ||| c <= '\u{f}'
    ||| c == '\u{7f}'
    ||| c == '\u{feff}'
    ||| seq!['?', ',', '\'', '"', '\\', '/', ':', ')', '(', '+', '*', '%', '~'].contains(c)
}

/// Whether a table may have the name. A dot must not come first, last or behind another dot; it
/// counts as last when its position in characters is the last position in bytes.
pub open spec fn valid_table_name(name: Seq<char>) -> bool {
    &&& name.len() > 0
    &&& forall|i: int| 0 <= i < name.len() ==> !banned_in_names(#[trigger] name[i])
    &&& forall|i: int|
        0 <= i < name.len() && #[trigger] name[i] == '.' ==> 0 < i && i != encode_utf8(name).len() - 1
            && name[i - 1] != '.'
}

/// Whether a column may have the name.
pub open spec fn valid_column_name(name: Seq<char>) -> bool {
    &&& name.len() > 0
    &&& forall|i: int|
        0 <= i < name.len() ==> !banned_in_names(#[trigger] name[i]) && name[i] != '.' && name[i] != '-'
}

/// Whether a row may begin: nothing was recorded yet, or a row was just ended.
pub open spec fn at_row_boundary(entries: Seq<Entry>) -> bool {
    entries.len() == 0 || entries.last() is At
}

/// Whether the entry may follow those recorded so far.
pub open spec fn may_follow(entries: Seq<Entry>, entry: Entry) -> bool {
    match entry {
        Entry::Table(_) => at_row_boundary(entries),
        Entry::Symbol(_, _) => !at_row_boundary(entries) && !(entries.last() is Column),
        Entry::Column(_, _) => !at_row_boundary(entries),
        Entry::At(_) => !at_row_boundary(entries) && !(entries.last() is Table),
    }
}

/// Whether the name that the entry carries, if any, is one that a buffer accepts.
pub open spec fn well_named(limit: nat, entry: Entry) -> bool {
    match entry {
        Entry::Table(name) => valid_table_name(name) && encode_utf8(name).len() <= limit,
        Entry::Symbol(name, _) => valid_column_name(name) && encode_utf8(name).len() <= limit,
        Entry::Column(name, _) => valid_column_name(name) && encode_utf8(name).len() <= limit,
        Entry::At(_) => true,
    }
}

/// Why a buffer that holds `entries` refuses `entry`; `None` if it records it.
pub open spec fn refusal(entries: Seq<Entry>, limit: nat, entry: Entry) -> Option<WriteErrorKind> {
    if !well_named(limit, entry) {
        Some(WriteErrorKind::InvalidName)
    } else if !may_follow(entries, entry) {
        Some(WriteErrorKind::InvalidApiCall)
    } else if entry matches Entry::At(nanos) && nanos < 0 {
        Some(WriteErrorKind::InvalidTimestamp)
    } else {
        None
    }
}

/// Whether a call that was to record `entry` did so or refused it, as `refusal` says: `before` and
/// `after` are the entries of the buffer around the call. A refusal leaves them as they were and comes
/// with `message`.
pub open spec fn recorded(
    before: Seq<Entry>,
    after: Seq<Entry>,
    limit: nat,
    entry: Entry,
    message: Seq<char>,
    result: Result<(), WriteError>,
) -> bool {
    match result {
        Ok(_) => refusal(before, limit, entry) is None && after == before.push(entry),
        Err(error) => {
            &&& refusal(before, limit, entry) == Some(error.kind)
            &&& error.message@ == message
            &&& after == before
        },
    }
}

/// Calls `Buffer::table`, which begins a row. It checks the name and its length in bytes, then
/// whether a row may begin, and records the table if all is well. What it says when it refuses
/// rests on the name, the longest name and the entries so far; `table_message` names it.
#[verifier::external_body]
pub(crate) fn buffer_table(buffer: &mut Buffer, name: &str) -> (result: Result<
    (),
    WriteError,
>)
    ensures
        buffer_name_limit(*final(buffer)) == buffer_name_limit(*old(buffer)),
        recorded(
            buffer_entries(*old(buffer)),
            buffer_entries(*final(buffer)),
            buffer_name_limit(*old(buffer)),
            Entry::Table(name@),
            table_message(
                buffer_entries(*old(buffer)),
                buffer_name_limit(*old(buffer)),
                name@,
            ),
            result,
        ),
{
    match buffer.table(name) {
        Ok(_) => Ok(()),
        Err(error) => {
            let kind = match error.code() {
                ErrorCode::InvalidName => WriteErrorKind::InvalidName,
                ErrorCode::InvalidTimestamp => WriteErrorKind::InvalidTimestamp,
                _ => WriteErrorKind::InvalidApiCall,
            };
            Err(WriteError { kind, message: error.msg().to_string() })
        },
    }
}

/// Calls `Buffer::symbol`, which records a symbol. It checks the name and its length in bytes, then
/// whether a symbol may follow: only a table or another symbol comes before one. What it says when
/// it refuses rests on the name, the longest name and the entries so far; `symbol_message` names
/// it.
#[verifier::external_body]
pub(crate) fn buffer_symbol(buffer: &mut Buffer, name: &str, value: &str) -> (result: Result<
    (),
    WriteError,
>)
    ensures
        buffer_name_limit(*final(buffer)) == buffer_name_limit(*old(buffer)),
        recorded(
            buffer_entries(*old(buffer)),
            buffer_entries(*final(buffer)),
            buffer_name_limit(*old(buffer)),
            Entry::Symbol(name@, value@),
            symbol_message(
                buffer_entries(*old(buffer)),
                buffer_name_limit(*old(buffer)),
                name@,
            ),
            result,
        ),
{
    match buffer.symbol(name, value) {
        Ok(_) => Ok(()),
        Err(error) => {
            let kind = match error.code() {
                ErrorCode::InvalidName => WriteErrorKind::InvalidName,
                ErrorCode::InvalidTimestamp => WriteErrorKind::InvalidTimestamp,
                _ => WriteErrorKind::InvalidApiCall,
            };
            Err(WriteError { kind, message: error.msg().to_string() })
        },
    }
}

/// Calls `Buffer::column_str`, which records a string column. It checks the name and its length in
/// bytes, then whether the row has begun. What it says when it refuses rests on the name, the
/// longest name and the entries so far, and not on the value; `column_message` names it.
#[verifier::external_body]
pub(crate) fn buffer_column_str(buffer: &mut Buffer, name: &str, value: &str) -> (result: Result<
    (),
    WriteError,
>)
    ensures
        buffer_name_limit(*final(buffer)) == buffer_name_limit(*old(buffer)),
        recorded(
            buffer_entries(*old(buffer)),
            buffer_entries(*final(buffer)),
            buffer_name_limit(*old(buffer)),
            Entry::Column(name@, ColumnValue::Str(value@)),
            column_message(
                buffer_entries(*old(buffer)),
                buffer_name_limit(*old(buffer)),
                name@,
            ),
            result,
        ),
{
    match buffer.column_str(name, value) {
        Ok(_) => Ok(()),
        Err(error) => {
            let kind = match error.code() {
                ErrorCode::InvalidName => WriteErrorKind::InvalidName,
                ErrorCode::InvalidTimestamp => WriteErrorKind::InvalidTimestamp,
                _ => WriteErrorKind::InvalidApiCall,
            };
            Err(WriteError { kind, message: error.msg().to_string() })
        },
    }
}

/// Calls `Buffer::column_i64`, which records an integer column. It checks the name and its length
/// in bytes, then whether the row has begun. What it says when it refuses rests on the name, the
/// longest name and the entries so far, and not on the value; `column_message` names it.
#[verifier::external_body]
pub(crate) fn buffer_column_i64(buffer: &mut Buffer, name: &str, value: i64) -> (result: Result<
    (),
    WriteError,
>)
    ensures
        buffer_name_limit(*final(buffer)) == buffer_name_limit(*old(buffer)),
        recorded(
            buffer_entries(*old(buffer)),
            buffer_entries(*final(buffer)),
            buffer_name_limit(*old(buffer)),
            Entry::Column(name@, ColumnValue::Long(value)),
            column_message(
                buffer_entries(*old(buffer)),
                buffer_name_limit(*old(buffer)),
                name@,
            ),
            result,
        ),
{
    match buffer.column_i64(name, value) {
        Ok(_) => Ok(()),
        Err(error) => {
            let kind = match error.code() {
                ErrorCode::InvalidName => WriteErrorKind::InvalidName,
                ErrorCode::InvalidTimestamp => WriteErrorKind::InvalidTimestamp,
                _ => WriteErrorKind::InvalidApiCall,
            };
            Err(WriteError { kind, message: error.msg().to_string() })
        },
    }
}

/// Calls `Buffer::column_bool`, which records a boolean column. It checks the name and its length
/// in bytes, then whether the row has begun. What it says when it refuses rests on the name, the
/// longest name and the entries so far, and not on the value; `column_message` names it.
#[verifier::external_body]
pub(crate) fn buffer_column_bool(buffer: &mut Buffer, name: &str, value: bool) -> (result: Result<
    (),
    WriteError,
>)
    ensures
        buffer_name_limit(*final(buffer)) == buffer_name_limit(*old(buffer)),
        recorded(
            buffer_entries(*old(buffer)),
            buffer_entries(*final(buffer)),
            buffer_name_limit(*old(buffer)),
            Entry::Column(name@, ColumnValue::Bool(value)),
            column_message(
                buffer_entries(*old(buffer)),
                buffer_name_limit(*old(buffer)),
                name@,
            ),
            result,
        ),
{
    match buffer.column_bool(name, value) {
        Ok(_) => Ok(()),
        Err(error) => {
            let kind = match error.code() {
                ErrorCode::InvalidName => WriteErrorKind::InvalidName,
                ErrorCode::InvalidTimestamp => WriteErrorKind::InvalidTimestamp,
                _ => WriteErrorKind::InvalidApiCall,
            };
            Err(WriteError { kind, message: error.msg().to_string() })
        },
    }
}

/// Calls `Buffer::at` with a `TimestampNanos`, which ends a row. It checks that the row has at least
/// a symbol or a column, then that the timestamp is not negative. What it says when it refuses rests
/// on the timestamp and the entries so far; `at_message` names it.
#[verifier::external_body]
pub(crate) fn buffer_at(buffer: &mut Buffer, nanos: i64) -> (result: Result<
    (),
    WriteError,
>)
    ensures
        buffer_name_limit(*final(buffer)) == buffer_name_limit(*old(buffer)),
        recorded(
            buffer_entries(*old(buffer)),
            buffer_entries(*final(buffer)),
            buffer_name_limit(*old(buffer)),
            Entry::At(nanos),
            at_message(buffer_entries(*old(buffer)), nanos),
            result,
        ),
{
    match buffer.at(TimestampNanos::new(nanos)) {
        Ok(_) => Ok(()),
        Err(error) => {
            let kind = match error.code() {
                ErrorCode::InvalidName => WriteErrorKind::InvalidName,
                ErrorCode::InvalidTimestamp => WriteErrorKind::InvalidTimestamp,
                _ => WriteErrorKind::InvalidApiCall,
            };
            Err(WriteError { kind, message: error.msg().to_string() })
        },
    }
}

} // verus!
