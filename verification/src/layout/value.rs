use super::conversions::{convert_value_to_bytes, converted_bytes};
use super::entry::ScalarType;
use super::errors::{LayoutError, LayoutErrorView};
use super::settings::Endianness;
use vstd::prelude::*;
use vstd::string::StrSliceExecFns;

verus! {

/// A resolved value, whether it came from the layout or from the data sheet.
#[derive(Debug, Clone)]
pub enum DataValue {
    U64(u64),
    I64(i64),
    /// A binary64 number, held as its bit pattern, with the decimal text
    /// that shows it in a message.
    F64(u64, String),
    Str(String),
}

/// The mathematical content of a [`DataValue`].
pub enum DataValueView {
    U64(u64),
    I64(i64),
    F64(u64, Seq<char>),
    Str(Seq<char>),
}

impl View for DataValue {
    type V = DataValueView;

    open spec fn view(&self) -> DataValueView {
        match self {
            DataValue::U64(v) => DataValueView::U64(*v),
            DataValue::I64(v) => DataValueView::I64(*v),
            DataValue::F64(v, shown) => DataValueView::F64(*v, shown@),
            DataValue::Str(s) => DataValueView::Str(s@),
        }
    }
}

/// One value or a list of them.
#[derive(Debug, Clone)]
pub enum ValueSource {
    Single(DataValue),
    Array(Vec<DataValue>),
}

/// The mathematical content of a [`ValueSource`].
pub enum ValueSourceView {
    Single(DataValueView),
    Array(Seq<DataValueView>),
}

/// The contents of a list of values.
pub open spec fn values_view(values: Seq<DataValue>) -> Seq<DataValueView> {
    Seq::new(values.len(), |i: int| values[i]@)
}

impl View for ValueSource {
    type V = ValueSourceView;

    open spec fn view(&self) -> ValueSourceView {
        match self {
            ValueSource::Single(v) => ValueSourceView::Single(v@),
            ValueSource::Array(v) => ValueSourceView::Array(values_view(v@)),
        }
    }
}

/// The text of the error for a value that is no string where one is needed.
pub open spec fn string_expected_message() -> Seq<char> {
    "String expected for string type."@
}

/// The bytes of a string value: its UTF-8 encoding.
pub open spec fn string_bytes(value: DataValueView) -> Result<Seq<u8>, LayoutErrorView> {
    match value {
        DataValueView::Str(s) => Ok(vstd::utf8::encode_utf8(s)),
        _ => Err(LayoutErrorView::DataValueExportFailed(string_expected_message())),
    }
}

impl DataValue {
    /// Converts the value to the bytes of `scalar_type` in the given byte
    /// order; `strict` refuses every conversion that would lose something.
    pub fn to_bytes(&self, scalar_type: ScalarType, endianness: &Endianness, strict: bool) -> (r:
        Result<Vec<u8>, LayoutError>)
        ensures
            match r {
                Ok(bytes) => converted_bytes(self@, scalar_type, *endianness, strict) == Ok::<
                    Seq<u8>,
                    LayoutErrorView,
                >(bytes@),
                Err(e) => converted_bytes(self@, scalar_type, *endianness, strict) == Err::<
                    Seq<u8>,
                    LayoutErrorView,
                >(e@),
            },
    {
        convert_value_to_bytes(self, scalar_type, endianness, strict)
    }

    /// The raw bytes of a string value; every other value is refused.
    pub fn string_to_bytes(&self) -> (r: Result<Vec<u8>, LayoutError>)
        ensures
            match r {
                Ok(bytes) => string_bytes(self@) == Ok::<Seq<u8>, LayoutErrorView>(bytes@),
                Err(e) => string_bytes(self@) == Err::<Seq<u8>, LayoutErrorView>(e@),
            },
    {
        match self {
            DataValue::Str(val) => Ok(val.as_str().as_bytes_vec()),
            _ => Err(
                LayoutError::DataValueExportFailed(
                    String::from_str("String expected for string type."),
                ),
            ),
        }
    }
}

} // verus!
