//! Converts tabular data (delimited text and spreadsheet grids) into
//! newline-delimited JSON: detection of the file format and of the dialect
//! of delimited text, type inference for single fields, and the conversion
//! of rows to JSON objects.

pub mod format_detection;
pub mod json;
pub mod parsers;
pub mod text;
pub mod value_conversion;

pub use format_detection::{detect_csv_format, detect_file_format, FileFormat, Terminator};
pub use json::ConvertError;
pub use parsers::{Parser, RowConverter};
pub use parsers::csv::{convert_csv_to_ndjson, CsvParser};
pub use parsers::xlsx::{CellError, CellValue, XlsxParser};
pub use value_conversion::{convert_field_value, FieldValue};
