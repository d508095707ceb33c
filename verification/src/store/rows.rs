//! Rows of CSV text: what the loader asks of the `csv` crate.

use csv::{ByteRecord, Reader, ReaderBuilder};
use vstd::prelude::*;

verus! {

/// `csv::Reader`. The rows that it has yet to hand out are [`rows_left`].
#[verifier::external_type_specification]
#[verifier::external_body]
#[verifier::reject_recursive_types(R)]
pub struct ExReader<R>(csv::Reader<R>);

/// `csv::ByteRecord`, one row. It holds [`fields_of`] and stands at [`line_of`].
#[verifier::external_type_specification]
#[verifier::external_body]
pub struct ExByteRecord(csv::ByteRecord);

/// All the rows that the `csv` crate reads from `data`, in order: the line and the
/// unescaped fields of each, or the message of the error that came in its place.
pub uninterp spec fn all_rows(data: Seq<u8>, delimiter: u8) -> Seq<
    Result<(u64, Seq<Seq<u8>>), Seq<char>>,
>;

/// What is left when the first one is a header, if there is one at all.
pub open spec fn after_header<T>(all: Seq<T>, has_header: bool) -> Seq<T> {
    if has_header && all.len() > 0 {
        all.drop_first()
    } else {
        all
    }
}

/// The rows of `data` that are not a header.
pub open spec fn csv_rows(data: Seq<u8>, delimiter: u8, has_header: bool) -> Seq<
    Result<(u64, Seq<Seq<u8>>), Seq<char>>,
> {
    after_header(all_rows(data, delimiter), has_header)
}

/// The rows that a reader has yet to hand out.
pub uninterp spec fn rows_left(r: Reader<&[u8]>) -> Seq<Result<(u64, Seq<Seq<u8>>), Seq<char>>>;

/// The fields of a record.
pub uninterp spec fn fields_of(rec: ByteRecord) -> Seq<Seq<u8>>;

/// The line of a record, once one was read into it.
pub uninterp spec fn line_of(rec: ByteRecord) -> Option<u64>;

/// The bytes with every quote doubled.
pub open spec fn doubled_quotes(field: Seq<u8>) -> Seq<u8>
    decreases field.len(),
{
    if field.len() == 0 {
        Seq::empty()
    } else if field.last() == 0x22 {
        doubled_quotes(field.drop_last()) + seq![0x22, 0x22]
    } else {
        doubled_quotes(field.drop_last()).push(field.last())
    }
}

/// A field between quotes, as RFC 4180 has it.
pub open spec fn quoted_field(field: Seq<u8>) -> Seq<u8> {
    seq![0x22] + doubled_quotes(field) + seq![0x22]
}

/// A field as it is written: as it is, or between quotes.
pub struct Field {
    pub bytes: Seq<u8>,
    pub quoted: bool,
}

/// The text of a field.
pub open spec fn field_text(f: Field) -> Seq<u8> {
    if f.quoted {
        quoted_field(f.bytes)
    } else {
        f.bytes
    }
}

/// The text of a row: its fields with the delimiter between them.
pub open spec fn row_text(row: Seq<Field>, delimiter: u8) -> Seq<u8>
    decreases row.len(),
{
    if row.len() == 0 {
        Seq::empty()
    } else if row.len() == 1 {
        field_text(row[0])
    } else {
        row_text(row.drop_last(), delimiter) + seq![delimiter] + field_text(row.last())
    }
}

/// The text of rows, each with the end of a line behind it.
pub open spec fn written_text(rows: Seq<Seq<Field>>, delimiter: u8) -> Seq<u8>
    decreases rows.len(),
{
    if rows.len() == 0 {
        Seq::empty()
    } else {
        written_text(rows.drop_last(), delimiter) + row_text(rows.last(), delimiter)
            + seq![0x0a]
    }
}

/// The byte is not one that means something else already: a quote or the end of a line.
pub open spec fn can_delimit(delimiter: u8) -> bool {
    delimiter != 0x22 && delimiter != 0x0a && delimiter != 0x0d
}

/// Every row has a field, and a field that holds a quote, a delimiter or the end of a line
/// is between quotes. So is a field that is empty and alone, as the line would be blank.
pub open spec fn are_writable(rows: Seq<Seq<Field>>, delimiter: u8) -> bool {
    forall|i: int|
        #![trigger rows[i]]
        0 <= i < rows.len() ==> {
            &&& rows[i].len() > 0
            &&& rows[i].len() == 1 && !rows[i][0].quoted ==> rows[i][0].bytes.len() > 0
            &&& forall|j: int|
                0 <= j < rows[i].len() && !(#[trigger] rows[i][j]).quoted ==> forall|b: u8|
                    #[trigger] rows[i][j].bytes.contains(b) ==> can_delimit(b) && b != delimiter
        }
}

/// The text starts with the mark that some programs put before UTF-8.
pub open spec fn has_byte_order_mark(data: Seq<u8>) -> bool {
    data.len() >= 3 && data[0] == 0xef && data[1] == 0xbb && data[2] == 0xbf
}

/// How many lines end in the text.
pub open spec fn line_ends(text: Seq<u8>) -> nat
    decreases text.len(),
{
    if text.len() == 0 {
        0
    } else if text.last() == 0x0a {
        line_ends(text.drop_last()) + 1
    } else {
        line_ends(text.drop_last())
    }
}

/// The rows as they are read back: the fields of each as they were, and the line on which
/// it starts, counted from one.
pub open spec fn rows_as_written(rows: Seq<Seq<Field>>, delimiter: u8) -> Seq<
    Result<(u64, Seq<Seq<u8>>), Seq<char>>,
> {
    Seq::new(
        rows.len(),
        |i: int|
            Ok(
                (
                    (line_ends(written_text(rows.take(i), delimiter)) + 1) as u64,
                    Seq::new(rows[i].len(), |j: int| rows[i][j].bytes),
                ),
            ),
    )
}

/// Whatever rows the text was written from, `read` is these rows, without a header.
pub open spec fn reads_what_was_written(
    data: Seq<u8>,
    delimiter: u8,
    has_header: bool,
    read: Seq<Result<(u64, Seq<Seq<u8>>), Seq<char>>>,
) -> bool {
    can_delimit(delimiter) && !has_byte_order_mark(data) ==> forall|rows: Seq<Seq<Field>>|
        data == #[trigger] written_text(rows, delimiter) && are_writable(rows, delimiter)
            ==> read == after_header(rows_as_written(rows, delimiter), has_header)
}

/// The rows of a text are those it was written from.
pub open spec fn csv_reads_back(data: Seq<u8>, delimiter: u8, has_header: bool) -> bool {
    reads_what_was_written(
        data,
        delimiter,
        has_header,
        csv_rows(data, delimiter, has_header),
    )
}

/// `ReaderBuilder::from_reader`, for rows of any number of fields. The rows to come are
/// settled by the text and the delimiter; a header is the first of them, and is skipped.
/// Text that was written row by row, each field as it is or between quotes, is read back
/// as these rows, each with its line. How other text is read is not spelled out here: a
/// quote inside a field that starts without one, blank lines, lines that end otherwise
/// than with a line feed or not at all, a byte order mark.
#[verifier::external_body]
pub(crate) fn open_rows(data: &[u8], delimiter: u8, has_header: bool) -> (r: Reader<&[u8]>)
    ensures
        rows_left(r) == after_header(all_rows(data@, delimiter), has_header),
        reads_what_was_written(data@, delimiter, has_header, rows_left(r)),
{
    ReaderBuilder::new()
        .delimiter(delimiter)
        .has_headers(has_header)
        .flexible(true)
        .from_reader(data)
}

/// `Reader::read_byte_record`: moves the next row into `rec`, together with its line, or
/// gives the message of the error that came in its place. `Ok(false)` means that no row
/// is left. What a reader does after an error is not said.
#[verifier::external_body]
pub(crate) fn read_row(r: &mut Reader<&[u8]>, rec: &mut ByteRecord) -> (res: Result<bool, String>)
    ensures
        match res {
            Ok(true) => {
                &&& rows_left(*old(r)).len() > 0
                &&& rows_left(*old(r))[0] matches Ok(row)
                &&& line_of(*final(rec)) == Some(row.0)
                &&& fields_of(*final(rec)) == row.1
                &&& rows_left(*final(r)) == rows_left(*old(r)).drop_first()
            },
            Ok(false) => rows_left(*old(r)).len() == 0,
            Err(message) => {
                &&& rows_left(*old(r)).len() > 0
                &&& rows_left(*old(r))[0] == Err::<(u64, Seq<Seq<u8>>), Seq<char>>(message@)
            },
        },
{
    r.read_byte_record(rec).map_err(|e| e.to_string())
}

/// `ByteRecord::new`: no fields, and no line yet.
#[verifier::external_body]
pub(crate) fn empty_record() -> (rec: ByteRecord)
    ensures
        fields_of(rec) == Seq::<Seq<u8>>::empty(),
        line_of(rec) is None,
{
    ByteRecord::new()
}

/// `ByteRecord::position`: the line of the record.
#[verifier::external_body]
pub(crate) fn record_line(rec: &ByteRecord) -> (line: Option<u64>)
    ensures
        line == line_of(*rec),
{
    rec.position().map(|p| p.line())
}

/// `ByteRecord::len`: the number of fields.
#[verifier::external_body]
pub(crate) fn record_len(rec: &ByteRecord) -> (n: usize)
    ensures
        n == fields_of(*rec).len(),
{
    rec.len()
}

/// `ByteRecord::index`: one field. Without such a field it panics.
#[verifier::external_body]
pub(crate) fn record_field(rec: &ByteRecord, i: usize) -> (field: &[u8])
    requires
        i < fields_of(*rec).len(),
    ensures
        field@ == fields_of(*rec)[i as int],
{
    &rec[i]
}

} // verus!
