//! Rows of a spreadsheet: a grid of typed cells, some of them absent.

use vstd::prelude::*;
use vstd::string::StringExecFns;
use crate::json::{
    float_number,
    has_key,
    insert_entry,
    is_storable,
    keys_unique,
    lemma_with_entry,
    new_object,
    object_entries,
    with_entry,
    ConvertError,
};
use crate::parsers::{column_label, make_column_label, Parser, RowConverter};
use crate::text::{push_signed_decimal, signed_decimal_text, str_eq};
use crate::value_conversion::{
    convert_field_value,
    field_value,
    lemma_boolean_word_bytes,
    lemma_integer_text_is_inferred,
    names,
    FieldValue,
    FieldValueView,
};

verus! {

/// The error that a spreadsheet cell shows in place of a value.
#[derive(Debug, Clone, Copy, PartialEq, Eq, Structural)]
pub enum CellError {
    Div0,
    NA,
    Name,
    Null,
    Num,
    Ref,
    Value,
    GettingData,
}

/// What a spreadsheet cell holds.
///
/// A cell that holds a floating-point number, a date or a duration is given
/// as the text that stands for the number.
#[derive(Debug, PartialEq)]
pub enum CellValue {
    /// A signed integer.
    Int(i64),
    /// A floating-point number, as text.
    Float(String),
    /// A string.
    Text(String),
    /// A boolean.
    Bool(bool),
    /// A date or time as a serial number, as text.
    DateTime(String),
    /// A duration as a serial number, as text.
    Duration(String),
    /// A date or time in ISO 8601.
    DateTimeIso(String),
    /// A duration in ISO 8601.
    DurationIso(String),
    /// An error.
    Error(CellError),
    /// Nothing.
    Empty,
}

/// A parser of spreadsheets, with the name of the sheet to read if one was
/// asked for.
pub struct XlsxParser {
    pub sheet_name: Option<String>,
}

/// The text that stands for an error cell.
pub open spec fn error_text(error: CellError) -> Seq<char> {
    match error {
        CellError::Div0 => "ERROR: Div0"@,
        CellError::NA => "ERROR: NA"@,
        CellError::Name => "ERROR: Name"@,
        CellError::Null => "ERROR: Null"@,
        CellError::Num => "ERROR: Num"@,
        CellError::Ref => "ERROR: Ref"@,
        CellError::Value => "ERROR: Value"@,
        CellError::GettingData => "ERROR: GettingData"@,
    }
}

/// The text that stands for a cell before its type is inferred.
pub open spec fn cell_text(cell: CellValue) -> Seq<char> {
    match cell {
        CellValue::Int(i) => signed_decimal_text(i as int),
        CellValue::Float(s) => s@,
        CellValue::Text(s) => s@,
        CellValue::Bool(b) => if b {
            "true"@
        } else {
            "false"@
        },
        CellValue::DateTime(s) => s@,
        CellValue::Duration(s) => s@,
        CellValue::DateTimeIso(s) => s@,
        CellValue::DurationIso(s) => s@,
        CellValue::Error(e) => error_text(e),
        CellValue::Empty => Seq::empty(),
    }
}

/// The name of column `col`: the text of its cell in the first row, or a
/// made-up name where that cell is absent.
pub open spec fn header_name(first_row: Seq<Option<CellValue>>, col: int) -> Seq<char> {
    match first_row[col] {
        Some(cell) => cell_text(cell),
        None => column_label(col as nat),
    }
}

/// The cell of a row in column `col`, if the row has one there.
pub open spec fn cell_at(row: Seq<Option<CellValue>>, col: int) -> Option<CellValue> {
    if 0 <= col < row.len() {
        row[col]
    } else {
        None
    }
}

/// The JSON value of a cell: `null` for an absent or empty cell, without any
/// inference; for every other cell what is inferred from its text.
pub open spec fn cell_json(
    cell: Option<CellValue>,
    column: Seq<char>,
    no_type_conversion: bool,
    string_fields: Seq<Seq<char>>,
) -> FieldValueView {
    match cell {
        None => FieldValueView::Null,
        Some(CellValue::Empty) => FieldValueView::Null,
        Some(c) => field_value(
            cell_text(c),
            column,
            no_type_conversion,
            string_fields,
            float_number(cell_text(c)),
        ),
    }
}

/// The entries of the JSON object of a row over the first `n` columns: the
/// cell of each column in turn is set under the name of the column.
pub open spec fn sheet_row_entries(
    columns: Seq<Seq<char>>,
    row: Seq<Option<CellValue>>,
    no_type_conversion: bool,
    string_fields: Seq<Seq<char>>,
    n: int,
) -> Seq<(Seq<char>, FieldValueView)>
    decreases n,
{
    if n <= 0 {
        Seq::empty()
    } else {
        let col = n - 1;
        with_entry(
            sheet_row_entries(columns, row, no_type_conversion, string_fields, col),
            columns[col],
            cell_json(cell_at(row, col), columns[col], no_type_conversion, string_fields),
        )
    }
}

/// The sheet that a parser reads among the sheets of a workbook: the first
/// one with the name that was asked for, or the first of all if no name was.
pub open spec fn selected_sheet(wanted: Option<Seq<char>>, sheets: Seq<Seq<char>>) -> Result<
    int,
    ConvertError,
> {
    match wanted {
        Some(name) => if sheets.contains(name) {
            Ok(sheets.index_of_first(name)->0)
        } else {
            Err(ConvertError::SheetNotFound)
        },
        None => if sheets.len() > 0 {
            Ok(0)
        } else {
            Err(ConvertError::NoSheets)
        },
    }
}

/// An absent cell and an empty cell are `null` under every option.
pub proof fn lemma_empty_cell_is_null(
    column: Seq<char>,
    no_type_conversion: bool,
    string_fields: Seq<Seq<char>>,
)
    ensures
        cell_json(None, column, no_type_conversion, string_fields) == FieldValueView::Null,
        cell_json(Some(CellValue::Empty), column, no_type_conversion, string_fields)
            == FieldValueView::Null,
{
}

/// With type conversion, and outside the columns that are kept as strings,
/// an integer cell becomes that integer and a boolean cell that boolean:
/// nothing is lost on the way through the text of the cell.
pub proof fn lemma_typed_cells_keep_their_value(
    column: Seq<char>,
    string_fields: Seq<Seq<char>>,
    i: i64,
    b: bool,
)
    requires
        !string_fields.contains(column),
    ensures
        cell_json(Some(CellValue::Int(i)), column, false, string_fields) == FieldValueView::Integer(
            i as int,
        ),
        cell_json(Some(CellValue::Bool(b)), column, false, string_fields) == FieldValueView::Bool(
            b,
        ),
{
    lemma_integer_text_is_inferred(i, float_number(signed_decimal_text(i as int)));
    lemma_boolean_word_bytes();
    reveal_strlit("true");
    reveal_strlit("false");
}

/// The object of every row of a sheet has the names of the columns as its
/// keys, each once, and no other key.
pub proof fn lemma_sheet_row_keys(
    columns: Seq<Seq<char>>,
    row: Seq<Option<CellValue>>,
    no_type_conversion: bool,
    string_fields: Seq<Seq<char>>,
    n: int,
)
    requires
        0 <= n <= columns.len(),
    ensures
        forall|key: Seq<char>|
            has_key(
                sheet_row_entries(columns, row, no_type_conversion, string_fields, n),
                key,
            ) <==> exists|col: int| 0 <= col < n && #[trigger] columns[col] == key,
        keys_unique(sheet_row_entries(columns, row, no_type_conversion, string_fields, n)),
        sheet_row_entries(columns, row, no_type_conversion, string_fields, n).len() <= n,
    decreases n,
{
    let entries = sheet_row_entries(columns, row, no_type_conversion, string_fields, n);
    if n > 0 {
        let k = n - 1;
        let before = sheet_row_entries(columns, row, no_type_conversion, string_fields, k);
        lemma_sheet_row_keys(columns, row, no_type_conversion, string_fields, k);
        lemma_with_entry(
            before,
            columns[k],
            cell_json(cell_at(row, k), columns[k], no_type_conversion, string_fields),
        );
        assert forall|key: Seq<char>| has_key(entries, key) <==> exists|col: int|
            0 <= col < n && #[trigger] columns[col] == key by {
            if has_key(entries, key) {
                if has_key(before, key) {
                    let col = choose|col: int| 0 <= col < k && #[trigger] columns[col] == key;
                    assert(0 <= col < n && columns[col] == key);
                } else {
                    assert(columns[k] == key);
                }
            }
            if exists|col: int| 0 <= col < n && #[trigger] columns[col] == key {
                let col = choose|col: int| 0 <= col < n && #[trigger] columns[col] == key;
                if col < k {
                    assert(has_key(before, key));
                }
            }
        }
    } else {
        assert forall|key: Seq<char>| !has_key(entries, key) by {}
    }
}

/// The text that stands for an error cell.
fn error_str(error: CellError) -> (text: &'static str)
    ensures
        text@ == error_text(error),
{
    match error {
        CellError::Div0 => "ERROR: Div0",
        CellError::NA => "ERROR: NA",
        CellError::Name => "ERROR: Name",
        CellError::Null => "ERROR: Null",
        CellError::Num => "ERROR: Num",
        CellError::Ref => "ERROR: Ref",
        CellError::Value => "ERROR: Value",
        CellError::GettingData => "ERROR: GettingData",
    }
}

/// Gives the text that stands for a cell before its type is inferred.
pub fn datatype_to_string(data: &CellValue) -> (text: String)
    ensures
        text@ == cell_text(*data),
{
    match data {
        CellValue::Int(i) => {
            let mut text = String::new();
            push_signed_decimal(&mut text, *i);
            assert(text@ =~= signed_decimal_text(*i as int));
            text
        },
        CellValue::Float(s) => s.clone(),
        CellValue::Text(s) => s.clone(),
        CellValue::Bool(b) => if *b {
            String::from_str("true")
        } else {
            String::from_str("false")
        },
        CellValue::DateTime(s) => s.clone(),
        CellValue::Duration(s) => s.clone(),
        CellValue::DateTimeIso(s) => s.clone(),
        CellValue::DurationIso(s) => s.clone(),
        CellValue::Error(e) => String::from_str(error_str(*e)),
        CellValue::Empty => String::new(),
    }
}

/// Converts a cell to its JSON value under the name of its column.
pub fn convert_cell(
    cell: Option<&CellValue>,
    column: &str,
    no_type_conversion: bool,
    string_fields: &[String],
) -> (value: FieldValue)
    ensures
        value@ == cell_json(
            match cell {
                Some(c) => Some(*c),
                None => None,
            },
            column@,
            no_type_conversion,
            names(string_fields@),
        ),
        is_storable(value@),
{
    match cell {
        None => FieldValue::Null,
        Some(CellValue::Empty) => FieldValue::Null,
        Some(c) => {
            let text = datatype_to_string(c);
            convert_field_value(text.as_str(), column, no_type_conversion, string_fields)
        },
    }
}

impl XlsxParser {
    /// A parser that reads the first sheet of a workbook.
    pub fn new() -> (parser: Self)
        ensures
            parser.sheet_name is None,
    {
        Self { sheet_name: None }
    }

    /// A parser that reads the sheet with the given name.
    pub fn with_sheet(sheet_name: String) -> (parser: Self)
        ensures
            parser.sheet_name == Some(sheet_name),
    {
        Self { sheet_name: Some(sheet_name) }
    }

    /// The name of the sheet that was asked for, as characters.
    pub open spec fn wanted(&self) -> Option<Seq<char>> {
        match self.sheet_name {
            Some(name) => Some(name@),
            None => None,
        }
    }

    /// Picks the sheet to read among the sheets of a workbook, given by their
    /// names in workbook order, and returns its index.
    ///
    /// Fails with `SheetNotFound` if a sheet was asked for that the workbook
    /// does not have, and with `NoSheets` if none was asked for and the
    /// workbook has no sheet at all.
    pub fn select_sheet(&self, sheet_names: &Vec<String>) -> (selected: Result<usize, ConvertError>)
        ensures
            match selected {
                Ok(i) => selected_sheet(self.wanted(), names(sheet_names@)) == Ok::<
                    int,
                    ConvertError,
                >(i as int),
                Err(e) => selected_sheet(self.wanted(), names(sheet_names@)) == Err::<
                    int,
                    ConvertError,
                >(e),
            },
    {
        match &self.sheet_name {
            Some(name) => {
                let mut i: usize = 0;
                while i < sheet_names.len()
                    invariant
                        i <= sheet_names.len(),
                        forall|j: int| 0 <= j < i ==> names(sheet_names@)[j] != name@,
                        self.sheet_name == Some(*name),
                    decreases sheet_names.len() - i,
                {
                    if str_eq(sheet_names[i].as_str(), name.as_str()) {
                        proof {
                            let all = names(sheet_names@);
                            assert(all[i as int] == name@);
                            assert(all.contains(name@));
                            all.index_of_first_ensures(name@);
                            let first = all.index_of_first(name@)->0;
                            assert(all[first] == name@);
                            assert(first == i);
                        }
                        return Ok(i);
                    }
                    i = i + 1;
                }
                Err(ConvertError::SheetNotFound)
            },
            None => {
                if sheet_names.len() > 0 {
                    Ok(0)
                } else {
                    Err(ConvertError::NoSheets)
                }
            },
        }
    }
}

impl Default for XlsxParser {
    fn default() -> (parser: Self)
        ensures
            parser.sheet_name is None,
    {
        Self::new()
    }
}

impl RowConverter for XlsxParser {
    type Cell = Option<CellValue>;

    open spec fn column_names(&self, first_row: Seq<Option<CellValue>>) -> Seq<Seq<char>> {
        Seq::new(first_row.len(), |col: int| header_name(first_row, col))
    }

    open spec fn row_entries(
        &self,
        columns: Seq<Seq<char>>,
        row: Seq<Option<CellValue>>,
        no_type_conversion: bool,
        string_fields: Seq<Seq<char>>,
    ) -> Seq<(Seq<char>, FieldValueView)> {
        sheet_row_entries(columns, row, no_type_conversion, string_fields, columns.len() as int)
    }

    fn header_names(&self, first_row: &Vec<Option<CellValue>>) -> (columns: Vec<String>) {
        let mut columns: Vec<String> = Vec::new();
        let mut col: usize = 0;
        while col < first_row.len()
            invariant
                col <= first_row.len(),
                columns@.len() == col,
                forall|j: int|
                    0 <= j < col ==> (#[trigger] columns@[j])@ == header_name(first_row@, j),
            decreases first_row.len() - col,
        {
            let name = match &first_row[col] {
                Some(cell) => datatype_to_string(cell),
                None => make_column_label(col),
            };
            columns.push(name);
            col = col + 1;
        }
        proof {
            assert(names(columns@) =~= self.column_names(first_row@));
        }
        columns
    }

    fn convert_row(
        &self,
        columns: &Vec<String>,
        row: &Vec<Option<CellValue>>,
        no_type_conversion: bool,
        string_fields: &[String],
    ) -> (object: serde_json::Map<String, serde_json::Value>) {
        let mut object = new_object();
        let mut col: usize = 0;
        while col < columns.len()
            invariant
                col <= columns.len(),
                object_entries(object) == sheet_row_entries(
                    names(columns@),
                    row@,
                    no_type_conversion,
                    names(string_fields@),
                    col as int,
                ),
            decreases columns.len() - col,
        {
            let cell = if col < row.len() {
                row[col].as_ref()
            } else {
                None
            };
            let value = convert_cell(
                cell,
                columns[col].as_str(),
                no_type_conversion,
                string_fields,
            );
            insert_entry(&mut object, columns[col].clone(), value);
            col = col + 1;
        }
        object
    }
}

impl Parser for XlsxParser {
}

} // verus!
