//! Rows of delimited text: every cell is the text of one field.

use vstd::prelude::*;
use crate::format_detection::{COMMA, QUOTE, Terminator};
use crate::json::{
    float_number,
    has_key,
    insert_entry,
    json_text,
    keys_unique,
    lemma_with_entry,
    new_object,
    object_entries,
    with_entry,
    ConvertError,
};
use crate::parsers::{
    column_label,
    data_rows,
    is_ndjson_of,
    make_column_label,
    row_texts,
    Parser,
    RowConverter,
};
use crate::value_conversion::{convert_field_value, field_value, names, FieldValueView};

verus! {

/// A parser of delimited text, with the dialect that its tokenizer is set to.
pub struct CsvParser {
    pub delimiter: u8,
    pub quote: u8,
    pub escape: Option<u8>,
    pub terminator: Terminator,
}

/// The name of the column of field `i`: its header, or a made-up name where
/// the row has more fields than there are headers.
pub open spec fn field_column(headers: Seq<Seq<char>>, i: int) -> Seq<char> {
    if 0 <= i < headers.len() {
        headers[i]
    } else {
        column_label(i as nat)
    }
}

/// The value of field `i` of a record under the name of its column.
pub open spec fn record_value(
    headers: Seq<Seq<char>>,
    fields: Seq<Seq<char>>,
    no_type_conversion: bool,
    string_fields: Seq<Seq<char>>,
    i: int,
) -> FieldValueView {
    field_value(
        fields[i],
        field_column(headers, i),
        no_type_conversion,
        string_fields,
        float_number(fields[i]),
    )
}

/// The entries of the JSON object of the first `n` fields of a record: each
/// field in turn is set under the name of its column.
pub open spec fn record_entries(
    headers: Seq<Seq<char>>,
    fields: Seq<Seq<char>>,
    no_type_conversion: bool,
    string_fields: Seq<Seq<char>>,
    n: int,
) -> Seq<(Seq<char>, FieldValueView)>
    decreases n,
{
    if n <= 0 {
        Seq::empty()
    } else {
        let i = n - 1;
        with_entry(
            record_entries(headers, fields, no_type_conversion, string_fields, i),
            field_column(headers, i),
            record_value(headers, fields, no_type_conversion, string_fields, i),
        )
    }
}

/// The keys of the object of a record are the column names of its fields,
/// each once, and no other; the object has no more entries than the record
/// has fields.
pub proof fn lemma_record_keys(
    headers: Seq<Seq<char>>,
    fields: Seq<Seq<char>>,
    no_type_conversion: bool,
    string_fields: Seq<Seq<char>>,
    n: int,
)
    requires
        0 <= n <= fields.len(),
    ensures
        forall|key: Seq<char>|
            has_key(
                record_entries(headers, fields, no_type_conversion, string_fields, n),
                key,
            ) <==> exists|i: int| 0 <= i < n && #[trigger] field_column(headers, i) == key,
        keys_unique(record_entries(headers, fields, no_type_conversion, string_fields, n)),
        record_entries(headers, fields, no_type_conversion, string_fields, n).len() <= n,
    decreases n,
{
    let entries = record_entries(headers, fields, no_type_conversion, string_fields, n);
    if n > 0 {
        let k = n - 1;
        let before = record_entries(headers, fields, no_type_conversion, string_fields, k);
        lemma_record_keys(headers, fields, no_type_conversion, string_fields, k);
        lemma_with_entry(
            before,
            field_column(headers, k),
            record_value(headers, fields, no_type_conversion, string_fields, k),
        );
        assert forall|key: Seq<char>| has_key(entries, key) <==> exists|i: int|
            0 <= i < n && #[trigger] field_column(headers, i) == key by {
            if has_key(entries, key) {
                if has_key(before, key) {
                    let i = choose|i: int| 0 <= i < k && #[trigger] field_column(headers, i) == key;
                    assert(0 <= i < n && field_column(headers, i) == key);
                } else {
                    assert(field_column(headers, k) == key);
                }
            }
            if exists|i: int| 0 <= i < n && #[trigger] field_column(headers, i) == key {
                let i = choose|i: int| 0 <= i < n && #[trigger] field_column(headers, i) == key;
                if i < k {
                    assert(has_key(before, key));
                }
            }
        }
    } else {
        assert forall|key: Seq<char>| !has_key(entries, key) by {}
    }
}

/// A record with fewer fields than there are headers gives an object
/// without the keys of the headers that it does not reach: a header behind
/// the last field, whose name no column of a field has, is no key of the
/// object.
pub proof fn lemma_short_record_lacks_trailing_keys(
    headers: Seq<Seq<char>>,
    fields: Seq<Seq<char>>,
    no_type_conversion: bool,
    string_fields: Seq<Seq<char>>,
    j: int,
)
    requires
        fields.len() <= j < headers.len(),
        forall|i: int| 0 <= i < fields.len() ==> #[trigger] headers[i] != headers[j],
    ensures
        !has_key(
            record_entries(
                headers,
                fields,
                no_type_conversion,
                string_fields,
                fields.len() as int,
            ),
            headers[j],
        ),
        record_entries(
            headers,
            fields,
            no_type_conversion,
            string_fields,
            fields.len() as int,
        ).len() <= fields.len(),
{
    lemma_record_keys(headers, fields, no_type_conversion, string_fields, fields.len() as int);
    if exists|i: int| 0 <= i < fields.len() && #[trigger] field_column(headers, i) == headers[j] {
        let i = choose|i: int|
            0 <= i < fields.len() && #[trigger] field_column(headers, i) == headers[j];
        assert(headers[i] != headers[j]);
    }
}

/// Where the columns of the fields have distinct names, the object lists
/// one entry per field, in the order of the fields: entry `i` has the name
/// of column `i` as its key and the value of field `i`.
pub proof fn lemma_distinct_columns_keep_order(
    headers: Seq<Seq<char>>,
    fields: Seq<Seq<char>>,
    no_type_conversion: bool,
    string_fields: Seq<Seq<char>>,
    n: int,
)
    requires
        0 <= n <= fields.len(),
        forall|i: int, j: int|
            0 <= i < j < n ==> #[trigger] field_column(headers, i) != #[trigger] field_column(
                headers,
                j,
            ),
    ensures
        record_entries(headers, fields, no_type_conversion, string_fields, n) == Seq::new(
            n as nat,
            |i: int|
                (
                    field_column(headers, i),
                    record_value(headers, fields, no_type_conversion, string_fields, i),
                ),
        ),
    decreases n,
{
    let entries = record_entries(headers, fields, no_type_conversion, string_fields, n);
    let listed = Seq::new(
        n as nat,
        |i: int|
            (
                field_column(headers, i),
                record_value(headers, fields, no_type_conversion, string_fields, i),
            ),
    );
    if n > 0 {
        let k = n - 1;
        let before = record_entries(headers, fields, no_type_conversion, string_fields, k);
        lemma_distinct_columns_keep_order(headers, fields, no_type_conversion, string_fields, k);
        lemma_record_keys(headers, fields, no_type_conversion, string_fields, k);
        if has_key(before, field_column(headers, k)) {
            let i = choose|i: int|
                0 <= i < k && #[trigger] field_column(headers, i) == field_column(headers, k);
            assert(field_column(headers, i) != field_column(headers, k));
        }
        lemma_with_entry(
            before,
            field_column(headers, k),
            record_value(headers, fields, no_type_conversion, string_fields, k),
        );
        assert(entries =~= listed);
    } else {
        assert(entries =~= listed);
    }
}

/// Where two fields of a record share the name of their column, the later
/// one decides the value: the entry with the name of a column holds the
/// value of the last field of that column.
pub proof fn lemma_last_field_of_a_column_wins(
    headers: Seq<Seq<char>>,
    fields: Seq<Seq<char>>,
    no_type_conversion: bool,
    string_fields: Seq<Seq<char>>,
    n: int,
    i: int,
)
    requires
        0 <= i < n <= fields.len(),
        forall|j: int|
            i < j < n ==> #[trigger] field_column(headers, j) != field_column(headers, i),
    ensures
        exists|at: int|
            0 <= at < record_entries(headers, fields, no_type_conversion, string_fields, n).len()
                && #[trigger] record_entries(
                headers,
                fields,
                no_type_conversion,
                string_fields,
                n,
            )[at] == (
                field_column(headers, i),
                record_value(headers, fields, no_type_conversion, string_fields, i),
            ),
    decreases n,
{
    let k = n - 1;
    let before = record_entries(headers, fields, no_type_conversion, string_fields, k);
    let after = record_entries(headers, fields, no_type_conversion, string_fields, n);
    lemma_with_entry(
        before,
        field_column(headers, k),
        record_value(headers, fields, no_type_conversion, string_fields, k),
    );
    if i < k {
        lemma_last_field_of_a_column_wins(
            headers,
            fields,
            no_type_conversion,
            string_fields,
            k,
            i,
        );
        let at = choose|at: int|
            0 <= at < before.len() && #[trigger] before[at] == (
                field_column(headers, i),
                record_value(headers, fields, no_type_conversion, string_fields, i),
            );
        assert(field_column(headers, k) != field_column(headers, i));
        assert(before[at].0 != field_column(headers, k));
        lemma_record_keys(headers, fields, no_type_conversion, string_fields, k);
        if has_key(before, field_column(headers, k)) {
        }
        assert(after[at] == before[at]);
    }
}

/// For each record after the header row, in order, the JSON text of its
/// object if it has one.
pub open spec fn record_texts(
    rows: Seq<Vec<String>>,
    no_type_conversion: bool,
    string_fields: Seq<Seq<char>>,
) -> Seq<Option<Seq<char>>> {
    Seq::new(
        data_rows(rows.len()),
        |i: int|
            json_text(
                record_entries(
                    names(rows[0]@),
                    names(rows[i + 1]@),
                    no_type_conversion,
                    string_fields,
                    rows[i + 1]@.len() as int,
                ),
            ),
    )
}

impl CsvParser {
    /// A parser with the given dialect.
    pub fn new(delimiter: u8, quote: u8, escape: Option<u8>, terminator: Terminator) -> (parser:
        Self)
        ensures
            parser.delimiter == delimiter,
            parser.quote == quote,
            parser.escape == escape,
            parser.terminator == terminator,
    {
        Self { delimiter, quote, escape, terminator }
    }

    /// Tells whether a doubled quote inside a quoted field stands for one
    /// quote: it does exactly if the dialect has no escape byte.
    pub fn doubles_quotes(&self) -> (doubled: bool)
        ensures
            doubled == (self.escape is None),
    {
        self.escape.is_none()
    }
}

impl RowConverter for CsvParser {
    type Cell = String;

    open spec fn column_names(&self, first_row: Seq<String>) -> Seq<Seq<char>> {
        names(first_row)
    }

    open spec fn row_entries(
        &self,
        columns: Seq<Seq<char>>,
        row: Seq<String>,
        no_type_conversion: bool,
        string_fields: Seq<Seq<char>>,
    ) -> Seq<(Seq<char>, FieldValueView)> {
        record_entries(columns, names(row), no_type_conversion, string_fields, row.len() as int)
    }

    fn header_names(&self, first_row: &Vec<String>) -> (columns: Vec<String>) {
        let mut columns: Vec<String> = Vec::new();
        let mut i: usize = 0;
        while i < first_row.len()
            invariant
                i <= first_row.len(),
                columns@.len() == i,
                forall|j: int| 0 <= j < i ==> (#[trigger] columns@[j])@ == first_row@[j]@,
            decreases first_row.len() - i,
        {
            columns.push(first_row[i].clone());
            i = i + 1;
        }
        proof {
            assert(names(columns@) =~= names(first_row@));
        }
        columns
    }

    fn convert_row(
        &self,
        columns: &Vec<String>,
        row: &Vec<String>,
        no_type_conversion: bool,
        string_fields: &[String],
    ) -> (object: serde_json::Map<String, serde_json::Value>) {
        let mut object = new_object();
        let mut i: usize = 0;
        while i < row.len()
            invariant
                i <= row.len(),
                object_entries(object) == record_entries(
                    names(columns@),
                    names(row@),
                    no_type_conversion,
                    names(string_fields@),
                    i as int,
                ),
            decreases row.len() - i,
        {
            let name = if i < columns.len() {
                columns[i].clone()
            } else {
                make_column_label(i)
            };
            let value = convert_field_value(
                row[i].as_str(),
                name.as_str(),
                no_type_conversion,
                string_fields,
            );
            insert_entry(&mut object, name, value);
            i = i + 1;
        }
        object
    }
}

impl Parser for CsvParser {
}

/// Converts the records of delimited text to newline-delimited JSON: the
/// first row holds the headers, every further row gives one line.
pub fn convert_csv_to_ndjson(
    rows: &Vec<Vec<String>>,
    no_type_conversion: bool,
    string_fields: &[String],
) -> (lines: Result<Vec<String>, ConvertError>)
    ensures
        is_ndjson_of(record_texts(rows@, no_type_conversion, names(string_fields@)), lines),
{
    let parser = CsvParser::new(COMMA, QUOTE, None, Terminator::CRLF);
    let lines = parser.convert_to_ndjson(rows, no_type_conversion, string_fields);
    proof {
        assert(record_texts(rows@, no_type_conversion, names(string_fields@)) =~= row_texts(
            &parser,
            rows@,
            no_type_conversion,
            names(string_fields@),
        ));
    }
    lines
}

} // verus!
