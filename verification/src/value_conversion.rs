//! Type inference for a single field: from its text, the name of its column
//! and the conversion options to a typed JSON value.

use vstd::prelude::*;
use vstd::string::StringSliceAdditionalSpecFns;
use crate::json::{float_number, is_storable, parse_float_number};
use crate::text::{
    decimal_text,
    digit_char,
    is_word,
    same_word,
    signed_decimal_text,
    str_eq,
    to_lower,
};

verus! {

/// The minus sign.
pub const MINUS: u8 = 0x2d;

/// The digit zero.
pub const ZERO: u8 = 0x30;

/// The digit nine.
pub const NINE: u8 = 0x39;

/// The decimal point.
pub const POINT: u8 = 0x2e;

/// The typed value of one field.
#[derive(Debug, PartialEq)]
pub enum FieldValue {
    /// JSON `null`.
    Null,
    /// A JSON boolean.
    Bool(bool),
    /// A JSON number without fraction or exponent.
    Integer(i64),
    /// A JSON number read from floating-point text.
    Float(serde_json::Number),
    /// A JSON string.
    Text(String),
}

/// What a [`FieldValue`] stands for in contracts.
pub enum FieldValueView {
    Null,
    Bool(bool),
    Integer(int),
    Float(serde_json::Number),
    Text(Seq<char>),
}

impl View for FieldValue {
    type V = FieldValueView;

    open spec fn view(&self) -> FieldValueView {
        match *self {
            FieldValue::Null => FieldValueView::Null,
            FieldValue::Bool(b) => FieldValueView::Bool(b),
            FieldValue::Integer(i) => FieldValueView::Integer(i as int),
            FieldValue::Float(n) => FieldValueView::Float(n),
            FieldValue::Text(s) => FieldValueView::Text(s@),
        }
    }
}

/// The text starts with the digit zero, is longer than that digit, and does
/// not go on with a decimal point.
pub open spec fn has_leading_zero(text: Seq<u8>) -> bool {
    &&& text.len() > 1
    &&& text[0] == ZERO
    &&& text[1] != POINT
}

/// The byte is an ASCII digit.
pub open spec fn is_digit(b: u8) -> bool {
    ZERO <= b <= NINE
}

/// Every byte is an ASCII digit.
pub open spec fn all_digits(text: Seq<u8>) -> bool {
    forall|i: int| 0 <= i < text.len() ==> is_digit(#[trigger] text[i])
}

/// The number that a string of ASCII digits stands for in base ten.
pub open spec fn decimal_value(digits: Seq<u8>) -> nat
    decreases digits.len(),
{
    if digits.len() == 0 {
        0
    } else {
        10 * decimal_value(digits.drop_last()) + (digits.last() - ZERO) as nat
    }
}

/// The integer that a text stands for: an optional minus sign followed by one
/// or more ASCII digits, with a value that a signed 64-bit integer can hold.
pub open spec fn integer_of(text: Seq<u8>) -> Option<int> {
    if text.len() > 0 && text[0] == MINUS {
        let digits = text.skip(1);
        if digits.len() > 0 && all_digits(digits) && decimal_value(digits)
            <= 0x8000_0000_0000_0000 {
            Some(-(decimal_value(digits) as int))
        } else {
            None
        }
    } else if text.len() > 0 && all_digits(text) && decimal_value(text) <= 0x7fff_ffff_ffff_ffff {
        Some(decimal_value(text) as int)
    } else {
        None
    }
}

/// The value of a field that is kept as text: `null` if it is empty, else the
/// text itself.
pub open spec fn kept_value(field: Seq<char>) -> FieldValueView {
    if field.len() == 0 {
        FieldValueView::Null
    } else {
        FieldValueView::Text(field)
    }
}

/// The value of a field whose text settles it: `null` for an empty text, a
/// boolean for the words `true` and `false` in any case, the text itself
/// where it has a leading zero, and an integer where it stands for one.
/// `None` for every other text.
pub open spec fn settled_value(field: Seq<char>) -> Option<FieldValueView> {
    let text = vstd::utf8::encode_utf8(field);
    if field.len() == 0 {
        Some(FieldValueView::Null)
    } else if same_word(field, "true"@) {
        Some(FieldValueView::Bool(true))
    } else if same_word(field, "false"@) {
        Some(FieldValueView::Bool(false))
    } else if has_leading_zero(text) {
        Some(FieldValueView::Text(field))
    } else {
        match integer_of(text) {
            Some(i) => Some(FieldValueView::Integer(i)),
            None => None,
        }
    }
}

/// The value of a text that `settled_value` leaves open: a number if the
/// text stands for a finite floating-point number, else the text itself.
pub open spec fn float_or_text(
    field: Seq<char>,
    float: Option<serde_json::Number>,
) -> FieldValueView {
    match float {
        Some(n) => FieldValueView::Float(n),
        None => FieldValueView::Text(field),
    }
}

/// The value that is inferred from the text of a field alone. `float` is what
/// the text stands for as a floating-point number, if anything.
pub open spec fn inferred_value(
    field: Seq<char>,
    float: Option<serde_json::Number>,
) -> FieldValueView {
    match settled_value(field) {
        Some(value) => value,
        None => float_or_text(field, float),
    }
}

/// The column names as sequences of characters.
pub open spec fn names(columns: Seq<String>) -> Seq<Seq<char>> {
    columns.map_values(|c: String| c@)
}

/// The value of a field under the conversion options. `float` is what the
/// text stands for as a floating-point number, if anything.
pub open spec fn field_value(
    field: Seq<char>,
    header_name: Seq<char>,
    no_type_conversion: bool,
    string_fields: Seq<Seq<char>>,
    float: Option<serde_json::Number>,
) -> FieldValueView {
    if no_type_conversion || string_fields.contains(header_name) {
        kept_value(field)
    } else {
        inferred_value(field, float)
    }
}

/// The value of a prefix of a digit string is at most that of the whole.
proof fn lemma_decimal_value_prefix(digits: Seq<u8>, k: int)
    requires
        0 <= k <= digits.len(),
        all_digits(digits),
    ensures
        decimal_value(digits.take(k)) <= decimal_value(digits),
    decreases digits.len() - k,
{
    if k < digits.len() {
        assert(digits.take(k + 1).drop_last() =~= digits.take(k));
        assert(is_digit(digits[k]));
        lemma_decimal_value_prefix(digits, k + 1);
    } else {
        assert(digits.take(k) =~= digits);
    }
}

/// Appends the digit `d` to the number `acc`, unless that goes beyond `limit`.
fn append_digit(acc: u64, d: u64, limit: u64) -> (appended: Option<u64>)
    requires
        d < 10,
        acc <= limit,
    ensures
        match appended {
            Some(v) => v == 10 * acc + d && v <= limit,
            None => 10 * acc + d > limit,
        },
{
    if limit < d || acc > (limit - d) / 10 {
        None
    } else {
        Some(acc * 10 + d)
    }
}

/// Reads the bytes of `text` from `start` on as a decimal number of at most
/// `limit`.
fn parse_digits(text: &[u8], start: usize, limit: u64) -> (parsed: Option<u64>)
    requires
        start <= text.len(),
    ensures
        match parsed {
            Some(v) => {
                &&& all_digits(text@.skip(start as int))
                &&& decimal_value(text@.skip(start as int)) == v
                &&& v <= limit
            },
            None => !all_digits(text@.skip(start as int)) || decimal_value(
                text@.skip(start as int),
            ) > limit,
        },
{
    let ghost digits = text@.skip(start as int);
    let mut acc: u64 = 0;
    let mut i: usize = start;
    while i < text.len()
        invariant
            start <= i <= text.len(),
            digits == text@.skip(start as int),
            all_digits(digits.take(i - start)),
            acc == decimal_value(digits.take(i - start)),
            acc <= limit,
        decreases text.len() - i,
    {
        let b = text[i];
        proof {
            assert(digits[i - start] == b);
            assert(digits.take(i - start + 1).drop_last() =~= digits.take(i - start));
        }
        if b < ZERO || b > NINE {
            proof {
                assert(!is_digit(digits[i - start]));
            }
            return None;
        }
        match append_digit(acc, (b - ZERO) as u64, limit) {
            Some(v) => {
                acc = v;
            },
            None => {
                proof {
                    if all_digits(digits) {
                        lemma_decimal_value_prefix(digits, i - start + 1);
                    }
                }
                return None;
            },
        }
        i = i + 1;
    }
    proof {
        assert(digits.take(i - start) =~= digits);
    }
    Some(acc)
}

/// Reads `text` as a signed decimal integer of 64 bits: an optional minus
/// sign, then digits only, and at least one.
pub fn parse_integer(text: &[u8]) -> (parsed: Option<i64>)
    ensures
        match parsed {
            Some(v) => integer_of(text@) == Some(v as int),
            None => integer_of(text@) is None,
        },
{
    if text.len() == 0 {
        return None;
    }
    if text[0] == MINUS {
        if text.len() == 1 {
            return None;
        }
        match parse_digits(text, 1, 0x8000_0000_0000_0000) {
            Some(magnitude) => if magnitude == 0x8000_0000_0000_0000 {
                Some(i64::MIN)
            } else {
                Some(-(magnitude as i64))
            },
            None => None,
        }
    } else {
        proof {
            assert(text@.skip(0) =~= text@);
        }
        match parse_digits(text, 0, 0x7fff_ffff_ffff_ffff) {
            Some(value) => Some(value as i64),
            None => None,
        }
    }
}

/// A number written in base ten reads back as itself: its text is made of
/// digits only, has the number as its value, and starts with a zero only
/// where the number is zero.
pub proof fn lemma_decimal_text_reads_back(n: nat)
    ensures
        vstd::utf8::is_ascii_chars(decimal_text(n)),
        vstd::utf8::encode_utf8(decimal_text(n)).len() == decimal_text(n).len(),
        decimal_text(n).len() >= 1,
        all_digits(vstd::utf8::encode_utf8(decimal_text(n))),
        decimal_value(vstd::utf8::encode_utf8(decimal_text(n))) == n,
        n > 0 ==> vstd::utf8::encode_utf8(decimal_text(n))[0] != ZERO,
        n == 0 ==> vstd::utf8::encode_utf8(decimal_text(n)).len() == 1,
    decreases n,
{
    let text = decimal_text(n);
    let bytes = vstd::utf8::encode_utf8(text);
    if n < 10 {
        assert(text.len() == 1);
        assert(text[0] == digit_char(n));
        assert(vstd::utf8::is_ascii_chars(text));
        vstd::utf8::is_ascii_chars_encode_utf8(text);
        assert(bytes[0] == text[0] as u8);
        assert(bytes[0] == ZERO + n);
        assert(bytes.drop_last() =~= Seq::<u8>::empty());
        assert(decimal_value(bytes.drop_last()) == 0);
    } else {
        let front = decimal_text(n / 10);
        let front_bytes = vstd::utf8::encode_utf8(front);
        lemma_decimal_text_reads_back(n / 10);
        assert(text == front.push(digit_char(n % 10)));
        assert forall|i: int| 0 <= i < text.len() implies '\0' <= #[trigger] text[i]
            <= '\u{7f}' by {
            if i < front.len() {
                assert(text[i] == front[i]);
            }
        }
        vstd::utf8::is_ascii_chars_encode_utf8(text);
        vstd::utf8::is_ascii_chars_encode_utf8(front);
        assert forall|i: int| 0 <= i < front.len() implies bytes[i] == front_bytes[i] by {
            assert(text[i] == front[i]);
            assert(bytes[i] == text[i] as u8);
            assert(front_bytes[i] == front[i] as u8);
        }
        assert(bytes.drop_last() =~= front_bytes);
        let last = text.len() - 1;
        assert(bytes[last] == text[last] as u8);
        assert(bytes.last() == ZERO + n % 10);
        assert forall|i: int| 0 <= i < bytes.len() implies is_digit(#[trigger] bytes[i]) by {
            if i < front.len() {
                assert(is_digit(front_bytes[i]));
            }
        }
        assert(bytes[0] == front_bytes[0]);
    }
}

/// An integer of 64 bits written in base ten is inferred to be that
/// integer: writing and reading are inverse to each other.
pub proof fn lemma_integer_text_is_inferred(i: i64, float: Option<serde_json::Number>)
    ensures
        integer_of(vstd::utf8::encode_utf8(signed_decimal_text(i as int))) == Some(i as int),
        inferred_value(signed_decimal_text(i as int), float) == FieldValueView::Integer(i as int),
{
    let text = signed_decimal_text(i as int);
    let bytes = vstd::utf8::encode_utf8(text);
    lemma_boolean_word_bytes();
    if i < 0 {
        let n = (-i) as nat;
        let digits = decimal_text(n);
        lemma_decimal_text_reads_back(n);
        assert(text == seq!['-'] + digits);
        assert forall|k: int| 0 <= k < text.len() implies '\0' <= #[trigger] text[k]
            <= '\u{7f}' by {
            if k > 0 {
                assert(text[k] == digits[k - 1]);
            }
        }
        vstd::utf8::is_ascii_chars_encode_utf8(text);
        vstd::utf8::is_ascii_chars_encode_utf8(digits);
        let digit_bytes = vstd::utf8::encode_utf8(digits);
        assert(bytes[0] == text[0] as u8);
        assert(bytes[0] == MINUS);
        assert forall|k: int| 0 <= k < digits.len() implies bytes.skip(1)[k] == digit_bytes[k] by {
            assert(text[k + 1] == digits[k]);
            assert(bytes[k + 1] == text[k + 1] as u8);
            assert(digit_bytes[k] == digits[k] as u8);
        }
        assert(bytes.skip(1) =~= digit_bytes);
        assert(to_lower(bytes[0]) != to_lower(vstd::utf8::encode_utf8("true"@)[0]));
        assert(to_lower(bytes[0]) != to_lower(vstd::utf8::encode_utf8("false"@)[0]));
    } else {
        lemma_decimal_text_reads_back(i as nat);
        assert(is_digit(bytes[0]));
        assert(to_lower(bytes[0]) != to_lower(vstd::utf8::encode_utf8("true"@)[0]));
        assert(to_lower(bytes[0]) != to_lower(vstd::utf8::encode_utf8("false"@)[0]));
    }
}

/// The two boolean words have four and five bytes and start with the letters
/// `t` and `f`.
pub proof fn lemma_boolean_word_bytes()
    ensures
        vstd::utf8::encode_utf8("true"@).len() == 4,
        vstd::utf8::encode_utf8("true"@)[0] == 0x74,
        vstd::utf8::encode_utf8("false"@).len() == 5,
        vstd::utf8::encode_utf8("false"@)[0] == 0x66,
{
    reveal_strlit("true");
    reveal_strlit("false");
    vstd::utf8::is_ascii_chars_encode_utf8("true"@);
    vstd::utf8::is_ascii_chars_encode_utf8("false"@);
}

/// A text of digits that starts with a zero and is longer than one digit
/// stays a string, whatever the options and whatever it stands for as a
/// number.
pub proof fn lemma_leading_zero_stays_text(
    field: Seq<char>,
    header_name: Seq<char>,
    no_type_conversion: bool,
    string_fields: Seq<Seq<char>>,
    float: Option<serde_json::Number>,
)
    requires
        vstd::utf8::encode_utf8(field).len() > 1,
        vstd::utf8::encode_utf8(field)[0] == ZERO,
        all_digits(vstd::utf8::encode_utf8(field)),
    ensures
        field_value(field, header_name, no_type_conversion, string_fields, float)
            == FieldValueView::Text(field),
{
    let text = vstd::utf8::encode_utf8(field);
    assert(field.len() > 0);
    assert(is_digit(text[1]));
    lemma_boolean_word_bytes();
    assert(to_lower(text[0]) != to_lower(vstd::utf8::encode_utf8("true"@)[0]));
    assert(to_lower(text[0]) != to_lower(vstd::utf8::encode_utf8("false"@)[0]));
}

/// The words `true` and `false`, in any case of their letters, are inferred
/// to be booleans.
pub proof fn lemma_boolean_words(field: Seq<char>, float: Option<serde_json::Number>)
    ensures
        same_word(field, "true"@) ==> inferred_value(field, float)
            == FieldValueView::Bool(true),
        same_word(field, "false"@) ==> inferred_value(
            field,
            float,
        ) == FieldValueView::Bool(false),
{
    lemma_boolean_word_bytes();
}

/// A text that is not empty, is neither of the two boolean words, and stands
/// for no number that inference would take (it has a leading zero, or it
/// stands neither for an integer nor for a floating-point number) is a
/// string with that very text, whatever the options.
pub proof fn lemma_other_text_stays_text(
    field: Seq<char>,
    header_name: Seq<char>,
    no_type_conversion: bool,
    string_fields: Seq<Seq<char>>,
    float: Option<serde_json::Number>,
)
    requires
        field.len() > 0,
        !same_word(field, "true"@),
        !same_word(field, "false"@),
        has_leading_zero(vstd::utf8::encode_utf8(field)) || (integer_of(
            vstd::utf8::encode_utf8(field),
        ) is None && float is None),
    ensures
        field_value(field, header_name, no_type_conversion, string_fields, float)
            == FieldValueView::Text(field),
{
}

/// Without type conversion every field that is not empty is a string with
/// its own text, and every empty field is `null`, also where the text would
/// be inferred to be a boolean or a number.
pub proof fn lemma_no_type_conversion(
    field: Seq<char>,
    header_name: Seq<char>,
    string_fields: Seq<Seq<char>>,
    float: Option<serde_json::Number>,
)
    ensures
        field.len() == 0 ==> field_value(field, header_name, true, string_fields, float)
            == FieldValueView::Null,
        field.len() > 0 ==> field_value(field, header_name, true, string_fields, float)
            == FieldValueView::Text(field),
{
}

/// In a column that is listed among the string fields every field that is
/// not empty is a string with its own text, and every empty field is `null`:
/// with type conversion and without it.
pub proof fn lemma_string_field(
    field: Seq<char>,
    header_name: Seq<char>,
    no_type_conversion: bool,
    string_fields: Seq<Seq<char>>,
    float: Option<serde_json::Number>,
)
    requires
        string_fields.contains(header_name),
    ensures
        field.len() == 0 ==> field_value(
            field,
            header_name,
            no_type_conversion,
            string_fields,
            float,
        ) == FieldValueView::Null,
        field.len() > 0 ==> field_value(
            field,
            header_name,
            no_type_conversion,
            string_fields,
            float,
        ) == FieldValueView::Text(field),
{
}

/// The value of a field depends on its own text, the name of its column and
/// the options, and on nothing else: it is never a floating-point number
/// other than the one that its own text stands for.
pub proof fn lemma_value_kinds(
    field: Seq<char>,
    header_name: Seq<char>,
    no_type_conversion: bool,
    string_fields: Seq<Seq<char>>,
    float: Option<serde_json::Number>,
)
    ensures
        ({
            let value = field_value(field, header_name, no_type_conversion, string_fields, float);
            &&& value is Text ==> value == FieldValueView::Text(field)
            &&& value is Float ==> float == Some(value->Float_0)
            &&& value is Integer ==> integer_of(vstd::utf8::encode_utf8(field)) == Some(
                value->Integer_0,
            )
            &&& value is Null <==> field.len() == 0
        }),
{
    let text = vstd::utf8::encode_utf8(field);
    if field.len() > 0 {
    }
}

/// Tells whether `header_name` is one of `string_fields`.
pub fn is_string_field(header_name: &str, string_fields: &[String]) -> (listed: bool)
    ensures
        listed == names(string_fields@).contains(header_name@),
{
    let mut i: usize = 0;
    while i < string_fields.len()
        invariant
            i <= string_fields.len(),
            forall|j: int| 0 <= j < i ==> names(string_fields@)[j] != header_name@,
        decreases string_fields.len() - i,
    {
        if str_eq(string_fields[i].as_str(), header_name) {
            proof {
                assert(names(string_fields@)[i as int] == header_name@);
            }
            return true;
        }
        i = i + 1;
    }
    false
}

/// Keeps a field as text: `null` if it is empty, else a string.
pub fn keep_text(field: &str) -> (value: FieldValue)
    ensures
        value@ == kept_value(field@),
{
    if field.is_empty() {
        FieldValue::Null
    } else {
        FieldValue::Text(field.to_owned())
    }
}

/// Settles the value of a field from its text where the text alone does so.
pub fn settle_value(field: &str) -> (settled: Option<FieldValue>)
    ensures
        match settled {
            Some(value) => settled_value(field@) == Some(value@),
            None => settled_value(field@) is None,
        },
{
    if field.is_empty() {
        return Some(FieldValue::Null);
    }
    let text = field.as_bytes();
    if is_word(field, "true") {
        Some(FieldValue::Bool(true))
    } else if is_word(field, "false") {
        Some(FieldValue::Bool(false))
    } else if text.len() > 1 && text[0] == ZERO && text[1] != POINT {
        Some(FieldValue::Text(field.to_owned()))
    } else {
        match parse_integer(text) {
            Some(i) => Some(FieldValue::Integer(i)),
            None => None,
        }
    }
}

/// Gives the value of a text that stands for no integer: the number `float`
/// if there is one, else the text itself.
pub fn number_or_text(field: &str, float: Option<serde_json::Number>) -> (value: FieldValue)
    ensures
        value@ == float_or_text(field@, float),
{
    match float {
        Some(n) => FieldValue::Float(n),
        None => FieldValue::Text(field.to_owned()),
    }
}

/// Gives the value of a field under the conversion options, with the reading
/// of its text as a floating-point number supplied by the caller.
pub fn resolve_field_value(
    field: &str,
    header_name: &str,
    no_type_conversion: bool,
    string_fields: &[String],
    float: Option<serde_json::Number>,
) -> (value: FieldValue)
    ensures
        value@ == field_value(
            field@,
            header_name@,
            no_type_conversion,
            names(string_fields@),
            float,
        ),
{
    if no_type_conversion || is_string_field(header_name, string_fields) {
        keep_text(field)
    } else {
        match settle_value(field) {
            Some(value) => value,
            None => number_or_text(field, float),
        }
    }
}

/// Converts the text of a field to a typed value.
///
/// With `no_type_conversion`, or for a column listed in `string_fields`, an
/// empty field is `null` and every other a string. Otherwise the type is
/// inferred from the text: `null` for an empty text, a boolean for `true`
/// and `false` in any case, a string for a text with a leading zero, an
/// integer or a floating-point number for a text that stands for one, and
/// a string for every other text.
pub fn convert_field_value(
    field: &str,
    header_name: &str,
    no_type_conversion: bool,
    string_fields: &[String],
) -> (value: FieldValue)
    ensures
        value@ == field_value(
            field@,
            header_name@,
            no_type_conversion,
            names(string_fields@),
            float_number(field@),
        ),
        is_storable(value@),
        no_type_conversion || names(string_fields@).contains(header_name@) ==> value@
            == kept_value(field@),
        field@.len() == 0 <==> value@ is Null,
        ({
            let text = vstd::utf8::encode_utf8(field@);
            &&& text.len() > 1 && text[0] == ZERO && all_digits(text) ==> value@
                == FieldValueView::Text(field@)
            &&& !no_type_conversion && !names(string_fields@).contains(header_name@)
                && same_word(field@, "true"@) ==> value@ == FieldValueView::Bool(true)
            &&& !no_type_conversion && !names(string_fields@).contains(header_name@)
                && same_word(field@, "false"@) ==> value@ == FieldValueView::Bool(false)
            &&& field@.len() > 0 && !same_word(field@, "true"@) && !same_word(field@, "false"@)
                && (has_leading_zero(text) || (integer_of(text) is None && float_number(field@)
                is None)) ==> value@ == FieldValueView::Text(field@)
        }),
{
    proof {
        let text = vstd::utf8::encode_utf8(field@);
        let columns = names(string_fields@);
        let float = float_number(field@);
        if text.len() > 1 && text[0] == ZERO && all_digits(text) {
            lemma_leading_zero_stays_text(field@, header_name@, no_type_conversion, columns, float);
        }
        lemma_boolean_words(field@, float);
        lemma_value_kinds(field@, header_name@, no_type_conversion, columns, float);
    }
    if no_type_conversion || is_string_field(header_name, string_fields) {
        keep_text(field)
    } else {
        match settle_value(field) {
            Some(value) => value,
            None => number_or_text(field, parse_float_number(field)),
        }
    }
}

} // verus!
