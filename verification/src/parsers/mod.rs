//! The two sources of rows, delimited text and spreadsheets, and what they
//! share: rows of cells go in, one JSON object per data row comes out, and
//! one line of JSON per object.

pub mod csv;
pub mod xlsx;

use vstd::prelude::*;
use vstd::string::StringExecFns;
use crate::json::{json_text, object_entries, to_json_line, ConvertError};
use crate::text::{decimal_text, push_decimal};
use crate::value_conversion::{names, FieldValueView};

verus! {

/// After how many records progress is reported.
pub const PROGRESS_INTERVAL: usize = 10000;

/// The name of a column that has no header: `column_` and its index.
pub open spec fn column_label(index: nat) -> Seq<char> {
    "column_"@ + decimal_text(index)
}

/// Makes the name of a column that has no header.
pub fn make_column_label(index: usize) -> (label: String)
    ensures
        label@ == column_label(index as nat),
{
    let mut label = String::from_str("column_");
    push_decimal(&mut label, index as u64);
    label
}

/// Tells whether progress is to be reported after `record_count` records.
pub fn progress_due(record_count: usize) -> (due: bool)
    ensures
        due == (record_count % PROGRESS_INTERVAL == 0),
{
    record_count % PROGRESS_INTERVAL == 0
}

/// `lines` is what a conversion owes when `texts` holds, for each data row in
/// order, its JSON text if it has one: every text as a line if each row has
/// one, and an error if some row has none.
pub open spec fn is_ndjson_of(
    texts: Seq<Option<Seq<char>>>,
    lines: Result<Vec<String>, ConvertError>,
) -> bool {
    match lines {
        Ok(lines) => {
            &&& lines@.len() == texts.len()
            &&& forall|i: int| 0 <= i < texts.len() ==> texts[i] == Some((#[trigger] lines@[i])@)
        },
        Err(e) => {
            &&& e == ConvertError::Serialize
            &&& exists|i: int| 0 <= i < texts.len() && (#[trigger] texts[i]) is None
        },
    }
}

/// How many data rows follow the header row among `rows` rows.
pub open spec fn data_rows(rows: nat) -> nat {
    if rows == 0 {
        0
    } else {
        (rows - 1) as nat
    }
}

/// What turns the rows of a source into JSON objects, one row at a time.
pub trait RowConverter {
    /// What one cell of a row holds.
    type Cell;

    /// The column names that the first row of the source gives.
    spec fn column_names(&self, first_row: Seq<Self::Cell>) -> Seq<Seq<char>>;

    /// The entries of the JSON object of one data row, in their order.
    spec fn row_entries(
        &self,
        columns: Seq<Seq<char>>,
        row: Seq<Self::Cell>,
        no_type_conversion: bool,
        string_fields: Seq<Seq<char>>,
    ) -> Seq<(Seq<char>, FieldValueView)>;

    /// Reads the column names from the first row of the source.
    fn header_names(&self, first_row: &Vec<Self::Cell>) -> (columns: Vec<String>)
        ensures
            names(columns@) == self.column_names(first_row@),
    ;

    /// Converts one data row to a JSON object.
    fn convert_row(
        &self,
        columns: &Vec<String>,
        row: &Vec<Self::Cell>,
        no_type_conversion: bool,
        string_fields: &[String],
    ) -> (object: serde_json::Map<String, serde_json::Value>)
        ensures
            object_entries(object) == self.row_entries(
                names(columns@),
                row@,
                no_type_conversion,
                names(string_fields@),
            ),
    ;
}

/// For each data row in order, its JSON text if it has one. The first row
/// gives the column names; the data rows are all that follow it.
pub open spec fn row_texts<C: RowConverter + ?Sized>(
    converter: &C,
    rows: Seq<Vec<C::Cell>>,
    no_type_conversion: bool,
    string_fields: Seq<Seq<char>>,
) -> Seq<Option<Seq<char>>> {
    Seq::new(
        data_rows(rows.len()),
        |i: int|
            json_text(
                converter.row_entries(
                    converter.column_names(rows[0]@),
                    rows[i + 1]@,
                    no_type_conversion,
                    string_fields,
                ),
            ),
    )
}

/// A source of rows that are converted to newline-delimited JSON.
pub trait Parser: RowConverter {
    /// Converts the rows of a source to newline-delimited JSON: the first row
    /// gives the column names, every further row one line.
    fn convert_to_ndjson(
        &self,
        rows: &Vec<Vec<Self::Cell>>,
        no_type_conversion: bool,
        string_fields: &[String],
    ) -> (lines: Result<Vec<String>, ConvertError>)
        ensures
            is_ndjson_of(row_texts(self, rows@, no_type_conversion, names(string_fields@)), lines),
    {
        let ghost texts = row_texts(self, rows@, no_type_conversion, names(string_fields@));
        let mut lines: Vec<String> = Vec::new();
        if rows.len() == 0 {
            return Ok(lines);
        }
        let columns = self.header_names(&rows[0]);
        let mut r: usize = 1;
        while r < rows.len()
            invariant
                1 <= r <= rows.len(),
                lines@.len() == r - 1,
                texts == row_texts(self, rows@, no_type_conversion, names(string_fields@)),
                names(columns@) == self.column_names(rows@[0]@),
                forall|i: int| 0 <= i < lines@.len() ==> texts[i] == Some((#[trigger] lines@[i])@),
            decreases rows.len() - r,
        {
            let object = self.convert_row(&columns, &rows[r], no_type_conversion, string_fields);
            match to_json_line(&object) {
                Ok(line) => {
                    lines.push(line);
                },
                Err(e) => {
                    proof {
                        assert(texts[r - 1] is None);
                    }
                    return Err(e);
                },
            }
            r = r + 1;
        }
        Ok(lines)
    }
}

} // verus!
