//! CSV text of records, written by the `csv` crate.

use vstd::prelude::*;
use vstd::string::*;
use crate::output::rows::{OncallRow, RowView};
use crate::text::{decimal, decimal_string};

verus! {

/// A `csv::Writer` over a byte vector, configured by default: comma
/// delimiter, line feed terminator, quotes where a field needs them, and
/// every record as long as the first.
#[verifier::external_body]
pub struct CsvBuffer {
    writer: csv::Writer<Vec<u8>>,
}

/// The records written to a buffer so far, each as its fields.
pub uninterp spec fn csv_records(buffer: CsvBuffer) -> Seq<Seq<Seq<char>>>;

/// The text that a `csv::Writer` hands out after the given records were
/// written to it.
pub uninterp spec fn csv_text(records: Seq<Seq<Seq<char>>>) -> Seq<char>;

/// `csv::Error`: why a record could not be written. The verifier sees
/// nothing inside it.
#[verifier::external_type_specification]
#[verifier::external_body]
pub struct ExCsvError(csv::Error);

/// `csv::Writer::from_writer` on an empty byte vector: a writer to which
/// nothing was written yet.
#[verifier::external_body]
fn new_buffer() -> (buffer: CsvBuffer)
    ensures
        csv_records(buffer) == Seq::<Seq<Seq<char>>>::empty(),
{
    CsvBuffer { writer: csv::Writer::from_writer(Vec::new()) }
}

/// `csv::Writer::write_record`: appends one record. Writing to a byte
/// vector cannot fail, so the one error left is a record that is not as
/// long as the first, which `requires` excludes.
#[verifier::external_body]
fn write_record(buffer: &mut CsvBuffer, fields: &Vec<String>) -> (result: Result<(), csv::Error>)
    requires
        fields.len() > 0,
        csv_records(*old(buffer)).len() > 0 ==> fields.len() == csv_records(*old(buffer))[0].len(),
    ensures
        result is Ok,
        csv_records(*final(buffer)) == csv_records(*old(buffer)).push(fields.deep_view()),
{
    buffer.writer.write_record(fields)
}

/// `csv::Writer::into_inner`, with the bytes read as UTF-8: the text of
/// all records written. Flushing into a byte vector cannot fail, and the
/// bytes are those of the fields with ASCII quotes, commas and line feeds
/// put between them, so they are UTF-8.
#[verifier::external_body]
fn into_text(buffer: CsvBuffer) -> (text: Option<String>)
    ensures
        text is Some,
        text.unwrap()@ == csv_text(csv_records(buffer)),
{
    match buffer.writer.into_inner() {
        Ok(bytes) => String::from_utf8(bytes).ok(),
        Err(_) => None,
    }
}

/// The header record.
pub open spec fn csv_header() -> Seq<Seq<char>> {
    seq!["Escalation Policy ID"@, "Escalation Policy"@, "depth"@, "name"@, "email"@]
}

/// The record of one row: policy id, policy name, depth as a decimal
/// numeral, user name, user email.
pub open spec fn csv_fields(row: RowView) -> Seq<Seq<char>> {
    seq![
        row.id,
        row.escalation_policy,
        decimal(row.depth as nat),
        row.user_name,
        row.user_email,
    ]
}

/// The header record followed by the records of the rows.
pub open spec fn csv_table(rows: Seq<RowView>) -> Seq<Seq<Seq<char>>> {
    seq![csv_header()] + rows.map_values(|row: RowView| csv_fields(row))
}

fn header_fields() -> (fields: Vec<String>)
    ensures
        fields.deep_view() == csv_header(),
        fields.len() == 5,
{
    let mut fields: Vec<String> = Vec::new();
    fields.push(String::from_str("Escalation Policy ID"));
    fields.push(String::from_str("Escalation Policy"));
    fields.push(String::from_str("depth"));
    fields.push(String::from_str("name"));
    fields.push(String::from_str("email"));
    proof {
        assert(fields.deep_view() =~= csv_header());
    }
    fields
}

fn row_fields(row: &OncallRow) -> (fields: Vec<String>)
    ensures
        fields.deep_view() == csv_fields(row.deep_view()),
        fields.len() == 5,
{
    let mut fields: Vec<String> = Vec::new();
    fields.push(row.id.clone());
    fields.push(row.escalation_policy.clone());
    fields.push(decimal_string(row.depth as u32));
    fields.push(row.user_name.clone());
    fields.push(row.user_email.clone());
    proof {
        assert(fields.deep_view() =~= csv_fields(row.deep_view()));
    }
    fields
}

/// The rows as CSV text: the header record, then one record per row.
pub fn csv_rows_text(rows: &Vec<OncallRow>) -> (text: String)
    ensures
        text@ == csv_text(csv_table(rows.deep_view())),
{
    let mut buffer = new_buffer();
    let header = header_fields();
    match write_record(&mut buffer, &header) {
        Ok(()) => {},
        Err(_) => {},
    }
    let mut i: usize = 0;
    proof {
        assert(csv_records(buffer) =~= csv_table(rows.deep_view().take(0)));
    }
    while i < rows.len()
        invariant
            i <= rows.len(),
            csv_records(buffer) == csv_table(rows.deep_view().take(i as int)),
        decreases rows.len() - i,
    {
        let fields = row_fields(&rows[i]);
        proof {
            assert(csv_records(buffer)[0] == csv_header());
            assert(csv_header().len() == 5);
        }
        match write_record(&mut buffer, &fields) {
            Ok(()) => {},
            Err(_) => {},
        }
        proof {
            let all = rows.deep_view();
            assert(all.take(i + 1) =~= all.take(i as int).push(all[i as int]));
            assert(csv_table(all.take(i + 1)) =~= csv_table(all.take(i as int)).push(
                csv_fields(all[i as int]),
            ));
        }
        i += 1;
    }
    proof {
        assert(rows.deep_view().take(i as int) =~= rows.deep_view());
    }
    match into_text(buffer) {
        Some(text) => text,
        None => String::new(),
    }
}

} // verus!
