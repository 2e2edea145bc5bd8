use super::block::BuildConfig;
use super::conversions::converted_bytes;
use super::errors::{LayoutError, LayoutErrorView};
use super::settings::Endianness;
use super::value::{
    string_bytes,
    values_view,
    DataValue,
    DataValueView,
    ValueSource,
    ValueSourceView,
};
use crate::variant::{matrix_view, DataSheet};
use vstd::prelude::*;
use vstd::string::StringExecFns;

verus! {

/// The type of a field: its width is both its size and its alignment.
#[derive(Debug, Clone, Copy, PartialEq, Eq, Structural)]
pub enum ScalarType {
    U8,
    U16,
    U32,
    U64,
    I8,
    I16,
    I32,
    I64,
    F32,
    F64,
}

impl ScalarType {
    /// The size of the scalar type in bytes.
    pub open spec fn width(self) -> nat {
        match self {
            ScalarType::U8 | ScalarType::I8 => 1,
            ScalarType::U16 | ScalarType::I16 => 2,
            ScalarType::U32 | ScalarType::I32 | ScalarType::F32 => 4,
            ScalarType::U64 | ScalarType::I64 | ScalarType::F64 => 8,
        }
    }

    /// The name of the type as layouts write it.
    pub open spec fn name(self) -> Seq<char> {
        match self {
            ScalarType::U8 => "u8"@,
            ScalarType::U16 => "u16"@,
            ScalarType::U32 => "u32"@,
            ScalarType::U64 => "u64"@,
            ScalarType::I8 => "i8"@,
            ScalarType::I16 => "i16"@,
            ScalarType::I32 => "i32"@,
            ScalarType::I64 => "i64"@,
            ScalarType::F32 => "f32"@,
            ScalarType::F64 => "f64"@,
        }
    }

    pub open spec fn is_float(self) -> bool {
        self == ScalarType::F32 || self == ScalarType::F64
    }

    pub open spec fn is_signed(self) -> bool {
        self == ScalarType::I8 || self == ScalarType::I16 || self == ScalarType::I32 || self
            == ScalarType::I64
    }

    /// The smallest value of an integer type.
    pub open spec fn min_value(self) -> int {
        match self {
            ScalarType::I8 => -0x80,
            ScalarType::I16 => -0x8000,
            ScalarType::I32 => -0x8000_0000,
            ScalarType::I64 => -0x8000_0000_0000_0000,
            _ => 0,
        }
    }

    /// The largest value of an integer type.
    pub open spec fn max_value(self) -> int {
        match self {
            ScalarType::U8 => 0xFF,
            ScalarType::U16 => 0xFFFF,
            ScalarType::U32 => 0xFFFF_FFFF,
            ScalarType::U64 => 0xFFFF_FFFF_FFFF_FFFF,
            ScalarType::I8 => 0x7F,
            ScalarType::I16 => 0x7FFF,
            ScalarType::I32 => 0x7FFF_FFFF,
            ScalarType::I64 => 0x7FFF_FFFF_FFFF_FFFF,
            _ => 0,
        }
    }

    /// Returns the size of the scalar type in bytes.
    pub fn size_bytes(&self) -> (size: usize)
        ensures
            size == self.width(),
            size == 1 || size == 2 || size == 4 || size == 8,
    {
        match self {
            ScalarType::U8 | ScalarType::I8 => 1,
            ScalarType::U16 | ScalarType::I16 => 2,
            ScalarType::U32 | ScalarType::I32 | ScalarType::F32 => 4,
            ScalarType::U64 | ScalarType::I64 | ScalarType::F64 => 8,
        }
    }

    /// The name of the type as layouts write it.
    pub fn label(&self) -> (name: &'static str)
        ensures
            name@ == self.name(),
    {
        match self {
            ScalarType::U8 => "u8",
            ScalarType::U16 => "u16",
            ScalarType::U32 => "u32",
            ScalarType::U64 => "u64",
            ScalarType::I8 => "i8",
            ScalarType::I16 => "i16",
            ScalarType::I32 => "i32",
            ScalarType::I64 => "i64",
            ScalarType::F32 => "f32",
            ScalarType::F64 => "f64",
        }
    }
}

/// The declared number of elements of a field.
#[derive(Debug, Clone, Copy)]
pub enum SizeSource {
    /// An array or a string of so many elements.
    OneD(usize),
    /// A matrix of so many rows and columns.
    TwoD([usize; 2]),
}

/// The two ways to declare a size: `size` allows fewer elements and pads the
/// rest, `SIZE` asks for exactly that many.
#[derive(Debug, Clone, Copy)]
pub struct SizeKeys {
    pub size: Option<SizeSource>,
    pub strict_size: Option<SizeSource>,
}

/// Where the value of a field comes from.
#[derive(Debug, Clone)]
pub enum EntrySource {
    /// Looked up by name in the data sheet.
    Name(String),
    /// Written in the layout.
    Value(ValueSource),
}

/// The mathematical content of an [`EntrySource`].
pub enum EntrySourceView {
    Name(Seq<char>),
    Value(ValueSourceView),
}

impl View for EntrySource {
    type V = EntrySourceView;

    open spec fn view(&self) -> EntrySourceView {
        match self {
            EntrySource::Name(n) => EntrySourceView::Name(n@),
            EntrySource::Value(v) => EntrySourceView::Value(v@),
        }
    }
}

/// A single typed field of a block.
#[derive(Debug, Clone)]
pub struct LeafEntry {
    pub scalar_type: ScalarType,
    pub size_keys: SizeKeys,
    pub source: EntrySource,
}

/// The mathematical content of a [`LeafEntry`].
pub struct LeafEntryView {
    pub scalar_type: ScalarType,
    pub size_keys: SizeKeys,
    pub source: EntrySourceView,
}

impl View for LeafEntry {
    type V = LeafEntryView;

    open spec fn view(&self) -> LeafEntryView {
        LeafEntryView {
            scalar_type: self.scalar_type,
            size_keys: self.size_keys,
            source: self.source@,
        }
    }
}

/// What a leaf needs to know of the build.
pub struct BuildRules {
    pub endianness: Endianness,
    pub padding: u8,
    pub strict: bool,
}

pub open spec fn export_failed(message: Seq<char>) -> LayoutErrorView {
    LayoutErrorView::DataValueExportFailed(message)
}

pub open spec fn both_sizes_message() -> Seq<char> {
    "Use either 'size' or 'SIZE', not both."@
}

pub open spec fn size_overflow_message() -> Seq<char> {
    "Array size overflow"@
}

pub open spec fn larger_message() -> Seq<char> {
    "Array/string is larger than defined size."@
}

pub open spec fn smaller_message() -> Seq<char> {
    "Array/string is smaller than defined size (strict SIZE)."@
}

pub open spec fn missing_sheet_message(name: Seq<char>) -> Seq<char> {
    "Field '"@ + name
        + "' requires a value from the Excel datasheet, but no datasheet was provided. Use -x to specify an Excel file."@
}

impl SizeKeys {
    /// The declared size and whether it is exact; both keys at once are an
    /// error.
    pub open spec fn resolved(self) -> Result<(Option<SizeSource>, bool), LayoutErrorView> {
        match (self.size, self.strict_size) {
            (Some(_), Some(_)) => Err(export_failed(both_sizes_message())),
            (Some(s), None) => Ok((Some(s), false)),
            (None, Some(s)) => Ok((Some(s), true)),
            (None, None) => Ok((None, false)),
        }
    }

    /// The declared size and whether it is exact.
    pub fn resolve(&self) -> (r: Result<(Option<SizeSource>, bool), LayoutError>)
        ensures
            match r {
                Ok(found) => self.resolved() == Ok::<(Option<SizeSource>, bool), LayoutErrorView>(
                    found,
                ),
                Err(e) => self.resolved() == Err::<(Option<SizeSource>, bool), LayoutErrorView>(
                    e@,
                ),
            },
    {
        match (&self.size, &self.strict_size) {
            (Some(_), Some(_)) => Err(
                LayoutError::DataValueExportFailed(
                    String::from_str("Use either 'size' or 'SIZE', not both."),
                ),
            ),
            (Some(s), None) => Ok((Some(*s), false)),
            (None, Some(s)) => Ok((Some(*s), true)),
            (None, None) => Ok((None, false)),
        }
    }
}

/// The conversions of the first `upto` values, one after the other; the
/// first value that cannot be converted gives the error.
pub open spec fn values_bytes(
    values: Seq<DataValueView>,
    ty: ScalarType,
    rules: BuildRules,
    upto: int,
) -> Result<Seq<u8>, LayoutErrorView>
    decreases upto,
{
    if upto <= 0 || upto > values.len() {
        Ok(Seq::empty())
    } else {
        match values_bytes(values, ty, rules, upto - 1) {
            Err(e) => Err(e),
            Ok(head) => match converted_bytes(
                values[upto - 1],
                ty,
                rules.endianness,
                rules.strict,
            ) {
                Err(e) => Err(e),
                Ok(bytes) => Ok(head + bytes),
            },
        }
    }
}

/// The conversions of the first `upto` rows, one after the other.
pub open spec fn rows_bytes(
    rows: Seq<Seq<DataValueView>>,
    ty: ScalarType,
    rules: BuildRules,
    upto: int,
) -> Result<Seq<u8>, LayoutErrorView>
    decreases upto,
{
    if upto <= 0 || upto > rows.len() {
        Ok(Seq::empty())
    } else {
        match rows_bytes(rows, ty, rules, upto - 1) {
            Err(e) => Err(e),
            Ok(head) => match values_bytes(rows[upto - 1], ty, rules, rows[upto - 1].len() as int) {
                Err(e) => Err(e),
                Ok(bytes) => Ok(head + bytes),
            },
        }
    }
}

/// `bytes` filled up to `total` bytes with the padding byte.
pub open spec fn padded(bytes: Seq<u8>, total: int, padding: u8) -> Seq<u8> {
    if bytes.len() >= total {
        bytes
    } else {
        bytes + Seq::new((total - bytes.len()) as nat, |i: int| padding)
    }
}

/// The bytes of a string in a field of type `ty`: only `u8` fields hold
/// strings.
pub open spec fn string_payload(value: DataValueView, ty: ScalarType) -> Result<
    Seq<u8>,
    LayoutErrorView,
> {
    if ty != ScalarType::U8 {
        Err(export_failed("Strings should have type u8."@))
    } else {
        string_bytes(value)
    }
}

/// The data sheet behind an optional reference to one.
pub open spec fn sheet_value(data_sheet: Option<&DataSheet>) -> Option<DataSheet> {
    match data_sheet {
        Some(d) => Some(*d),
        None => None,
    }
}

impl LeafEntryView {
    /// The bytes of a field without a size: one converted value.
    pub open spec fn single_bytes(self, data_sheet: Option<DataSheet>, rules: BuildRules) -> Result<
        Seq<u8>,
        LayoutErrorView,
    > {
        match self.source {
            EntrySourceView::Name(name) => match data_sheet {
                None => Err(LayoutErrorView::MissingDataSheet(missing_sheet_message(name))),
                Some(sheet) => match sheet.single_value(name) {
                    Err(e) => Err(LayoutErrorView::Variant(e)),
                    Ok(v) => converted_bytes(v, self.scalar_type, rules.endianness, rules.strict),
                },
            },
            EntrySourceView::Value(ValueSourceView::Single(v)) => converted_bytes(
                v,
                self.scalar_type,
                rules.endianness,
                rules.strict,
            ),
            EntrySourceView::Value(_) => Err(
                export_failed("Single value expected for scalar type."@),
            ),
        }
    }

    /// What the source supplies for an array or a string, before it is held
    /// against the declared size.
    pub open spec fn array_payload(self, data_sheet: Option<DataSheet>, rules: BuildRules) -> Result<
        Seq<u8>,
        LayoutErrorView,
    > {
        match self.source {
            EntrySourceView::Name(name) => match data_sheet {
                None => Err(LayoutErrorView::MissingDataSheet(missing_sheet_message(name))),
                Some(sheet) => match sheet.array_or_string(name) {
                    Err(e) => Err(LayoutErrorView::Variant(e)),
                    Ok(ValueSourceView::Single(v)) => string_payload(v, self.scalar_type),
                    Ok(ValueSourceView::Array(vs)) => values_bytes(
                        vs,
                        self.scalar_type,
                        rules,
                        vs.len() as int,
                    ),
                },
            },
            EntrySourceView::Value(ValueSourceView::Array(vs)) => values_bytes(
                vs,
                self.scalar_type,
                rules,
                vs.len() as int,
            ),
            EntrySourceView::Value(ValueSourceView::Single(v)) => string_payload(
                v,
                self.scalar_type,
            ),
        }
    }

    /// The bytes of an array or string of `size` elements: what the source
    /// supplies, padded to the declared size. More than the declared size is
    /// an error, and so is less where the size is exact.
    pub open spec fn array_bytes(
        self,
        data_sheet: Option<DataSheet>,
        rules: BuildRules,
        size: usize,
        exact: bool,
    ) -> Result<Seq<u8>, LayoutErrorView> {
        let total = size * self.scalar_type.width();
        if total > usize::MAX {
            Err(export_failed(size_overflow_message()))
        } else {
            match self.array_payload(data_sheet, rules) {
                Err(e) => Err(e),
                Ok(out) => if out.len() > total {
                    Err(export_failed(larger_message()))
                } else if exact && out.len() < total {
                    Err(export_failed(smaller_message()))
                } else {
                    Ok(padded(out, total, rules.padding))
                },
            }
        }
    }

    /// The bytes of a matrix of `rows` by `cols` elements, which only the
    /// data sheet can supply: its rows one after the other, padded to the
    /// declared size. Every row has exactly `cols` elements; more rows than
    /// declared are an error, and so are fewer where the size is exact.
    pub open spec fn matrix_bytes(
        self,
        data_sheet: Option<DataSheet>,
        rules: BuildRules,
        rows: usize,
        cols: usize,
        exact: bool,
    ) -> Result<Seq<u8>, LayoutErrorView> {
        match self.source {
            EntrySourceView::Name(name) => match data_sheet {
                None => Err(LayoutErrorView::MissingDataSheet(missing_sheet_message(name))),
                Some(sheet) => match sheet.matrix(name) {
                    Err(e) => Err(LayoutErrorView::Variant(e)),
                    Ok(data) => if rows * cols > usize::MAX {
                        Err(export_failed("2D size overflow"@))
                    } else if rows * cols * self.scalar_type.width() > usize::MAX {
                        Err(export_failed("2D byte count overflow"@))
                    } else if exists|i: int| 0 <= i < data.len() && (#[trigger] data[i]).len() != cols {
                        Err(export_failed("2D array column count mismatch."@))
                    } else if data.len() > rows {
                        Err(export_failed("2D array row count greater than defined size."@))
                    } else if exact && data.len() < rows {
                        Err(
                            export_failed(
                                "2D array row count smaller than defined size (strict SIZE)."@,
                            ),
                        )
                    } else {
                        match rows_bytes(data, self.scalar_type, rules, data.len() as int) {
                            Err(e) => Err(e),
                            Ok(out) => Ok(
                                padded(
                                    out,
                                    rows * cols * self.scalar_type.width(),
                                    rules.padding,
                                ),
                            ),
                        }
                    },
                },
            },
            EntrySourceView::Value(_) => Err(
                export_failed("2D arrays within the layout file are not supported."@),
            ),
        }
    }

    /// The bytes that the field contributes to its block.
    #[verifier::opaque]
    pub open spec fn bytes(self, data_sheet: Option<DataSheet>, rules: BuildRules) -> Result<
        Seq<u8>,
        LayoutErrorView,
    > {
        match self.size_keys.resolved() {
            Err(e) => Err(e),
            Ok((None, _)) => self.single_bytes(data_sheet, rules),
            Ok((Some(SizeSource::OneD(size)), exact)) => self.array_bytes(
                data_sheet,
                rules,
                size,
                exact,
            ),
            Ok((Some(SizeSource::TwoD(size)), exact)) => self.matrix_bytes(
                data_sheet,
                rules,
                size[0],
                size[1],
                exact,
            ),
        }
    }
}

fn export_error(message: &str) -> (e: LayoutError)
    ensures
        e@ == export_failed(message@),
{
    LayoutError::DataValueExportFailed(String::from_str(message))
}

fn missing_sheet(name: &String) -> (e: LayoutError)
    ensures
        e@ == LayoutErrorView::MissingDataSheet(missing_sheet_message(name@)),
{
    let mut text = String::from_str("Field '");
    text.append(name.as_str());
    text.append(
        "' requires a value from the Excel datasheet, but no datasheet was provided. Use -x to specify an Excel file.",
    );
    LayoutError::MissingDataSheet(text)
}

/// Appends the conversions of `values` to `out`.
fn convert_all(
    values: &Vec<DataValue>,
    ty: ScalarType,
    config: &BuildConfig,
    out: &mut Vec<u8>,
) -> (r: Result<(), LayoutError>)
    ensures
        match r {
            Ok(()) => values_bytes(values_view(values@), ty, config.rules(), values@.len() as int)
                matches Ok(bytes) && final(out)@ == old(out)@ + bytes,
            Err(e) => values_bytes(values_view(values@), ty, config.rules(), values@.len() as int)
                == Err::<Seq<u8>, LayoutErrorView>(e@),
        },
{
    let ghost start = out@;
    let ghost views = values_view(values@);
    let mut i: usize = 0;
    assert(out@ =~= start + Seq::<u8>::empty());
    while i < values.len()
        invariant
            i <= values.len(),
            views == values_view(values@),
            values_bytes(views, ty, config.rules(), i as int) matches Ok(bytes) && out@ == start
                + bytes,
        decreases values.len() - i,
    {
        let ghost before = values_bytes(views, ty, config.rules(), i as int)->Ok_0;
        match values[i].to_bytes(ty, config.endianness, config.strict) {
            Err(e) => {
                proof {
                    lemma_values_bytes_error(views, ty, config.rules(), i + 1, views.len() as int);
                }
                return Err(e);
            },
            Ok(mut bytes) => {
                assert(start + (before + bytes@) =~= (start + before) + bytes@);
                out.append(&mut bytes);
            },
        }
        i = i + 1;
    }
    Ok(())
}

/// An error among the first values is the error of every longer run.
proof fn lemma_values_bytes_error(
    values: Seq<DataValueView>,
    ty: ScalarType,
    rules: BuildRules,
    bad: int,
    upto: int,
)
    requires
        0 <= bad <= upto <= values.len(),
        values_bytes(values, ty, rules, bad) is Err,
    ensures
        values_bytes(values, ty, rules, upto) == values_bytes(values, ty, rules, bad),
    decreases upto,
{
    if upto > bad {
        lemma_values_bytes_error(values, ty, rules, bad, upto - 1);
    }
}

/// An error among the first rows is the error of every longer run.
proof fn lemma_rows_bytes_error(
    rows: Seq<Seq<DataValueView>>,
    ty: ScalarType,
    rules: BuildRules,
    bad: int,
    upto: int,
)
    requires
        0 <= bad <= upto <= rows.len(),
        rows_bytes(rows, ty, rules, bad) is Err,
    ensures
        rows_bytes(rows, ty, rules, upto) == rows_bytes(rows, ty, rules, bad),
    decreases upto,
{
    if upto > bad {
        lemma_rows_bytes_error(rows, ty, rules, bad, upto - 1);
    }
}

/// Fills `out` up to `total` bytes with the padding byte.
pub fn pad_to(out: &mut Vec<u8>, total: usize, padding: u8)
    ensures
        final(out)@ == padded(old(out)@, total as int, padding),
{
    let ghost start = out@;
    assert(out@ =~= start + Seq::new(0, |i: int| padding));
    while out.len() < total
        invariant
            start.len() <= out@.len(),
            out@.len() <= total || out@ == start,
            out@ == start + Seq::new((out@.len() - start.len()) as nat, |i: int| padding),
        decreases total - out.len(),
    {
        out.push(padding);
        assert(out@ =~= start + Seq::new((out@.len() - start.len()) as nat, |i: int| padding));
    }
    assert(out@ =~= padded(start, total as int, padding));
}

fn is_u8(ty: ScalarType) -> (r: bool)
    ensures
        r == (ty == ScalarType::U8),
{
    match ty {
        ScalarType::U8 => true,
        _ => false,
    }
}

/// The bytes of a string in a field of type `ty`.
fn string_value_bytes(value: &DataValue, ty: ScalarType) -> (r: Result<Vec<u8>, LayoutError>)
    ensures
        match r {
            Ok(bytes) => string_payload(value@, ty) == Ok::<Seq<u8>, LayoutErrorView>(bytes@),
            Err(e) => string_payload(value@, ty) == Err::<Seq<u8>, LayoutErrorView>(e@),
        },
{
    if !is_u8(ty) {
        return Err(export_error("Strings should have type u8."));
    }
    value.string_to_bytes()
}

/// The bytes of a list of values, from an empty buffer.
fn list_bytes(values: &Vec<DataValue>, ty: ScalarType, config: &BuildConfig) -> (r: Result<
    Vec<u8>,
    LayoutError,
>)
    ensures
        match r {
            Ok(bytes) => values_bytes(
                values_view(values@),
                ty,
                config.rules(),
                values@.len() as int,
            ) == Ok::<Seq<u8>, LayoutErrorView>(bytes@),
            Err(e) => values_bytes(values_view(values@), ty, config.rules(), values@.len() as int)
                == Err::<Seq<u8>, LayoutErrorView>(e@),
        },
{
    let mut out: Vec<u8> = Vec::new();
    match convert_all(values, ty, config, &mut out) {
        Err(e) => Err(e),
        Ok(()) => {
            proof {
                let bytes = values_bytes(
                    values_view(values@),
                    ty,
                    config.rules(),
                    values@.len() as int,
                )->Ok_0;
                assert(Seq::<u8>::empty() + bytes =~= bytes);
            }
            Ok(out)
        },
    }
}

impl LeafEntry {
    /// Returns the alignment of the leaf entry.
    pub fn get_alignment(&self) -> (alignment: usize)
        ensures
            alignment == self.scalar_type.width(),
            alignment == 1 || alignment == 2 || alignment == 4 || alignment == 8,
    {
        self.scalar_type.size_bytes()
    }

    /// The bytes that the field contributes to its block.
    pub fn emit_bytes(&self, data_sheet: Option<&DataSheet>, config: &BuildConfig) -> (r: Result<
        Vec<u8>,
        LayoutError,
    >)
        ensures
            match r {
                Ok(bytes) => self@.bytes(sheet_value(data_sheet), config.rules()) == Ok::<
                    Seq<u8>,
                    LayoutErrorView,
                >(bytes@),
                Err(e) => self@.bytes(sheet_value(data_sheet), config.rules()) == Err::<
                    Seq<u8>,
                    LayoutErrorView,
                >(e@),
            },
    {
        reveal(LeafEntryView::bytes);
        let (size, strict_len) = match self.size_keys.resolve() {
            Err(e) => {
                return Err(e);
            },
            Ok(found) => found,
        };
        match size {
            None => self.emit_bytes_single(data_sheet, config),
            Some(SizeSource::OneD(size)) => self.emit_bytes_1d(
                data_sheet,
                size,
                config,
                strict_len,
            ),
            Some(SizeSource::TwoD(size)) => self.emit_bytes_2d(
                data_sheet,
                size,
                config,
                strict_len,
            ),
        }
    }

    fn emit_bytes_single(&self, data_sheet: Option<&DataSheet>, config: &BuildConfig) -> (r: Result<
        Vec<u8>,
        LayoutError,
    >)
        ensures
            match r {
                Ok(bytes) => self@.single_bytes(sheet_value(data_sheet), config.rules()) == Ok::<
                    Seq<u8>,
                    LayoutErrorView,
                >(bytes@),
                Err(e) => self@.single_bytes(sheet_value(data_sheet), config.rules()) == Err::<
                    Seq<u8>,
                    LayoutErrorView,
                >(e@),
            },
    {
        match &self.source {
            EntrySource::Name(name) => {
                let sheet = match data_sheet {
                    None => {
                        return Err(missing_sheet(name));
                    },
                    Some(sheet) => sheet,
                };
                match sheet.retrieve_single_value(name.as_str()) {
                    Err(e) => Err(LayoutError::Variant(e)),
                    Ok(value) => value.to_bytes(
                        self.scalar_type,
                        config.endianness,
                        config.strict,
                    ),
                }
            },
            EntrySource::Value(ValueSource::Single(v)) => v.to_bytes(
                self.scalar_type,
                config.endianness,
                config.strict,
            ),
            EntrySource::Value(_) => Err(export_error("Single value expected for scalar type.")),
        }
    }

    /// What the source supplies for an array or a string.
    fn array_source_bytes(&self, data_sheet: Option<&DataSheet>, config: &BuildConfig) -> (r:
        Result<Vec<u8>, LayoutError>)
        ensures
            match r {
                Ok(bytes) => self@.array_payload(sheet_value(data_sheet), config.rules()) == Ok::<
                    Seq<u8>,
                    LayoutErrorView,
                >(bytes@),
                Err(e) => self@.array_payload(sheet_value(data_sheet), config.rules()) == Err::<
                    Seq<u8>,
                    LayoutErrorView,
                >(e@),
            },
    {
        match &self.source {
            EntrySource::Name(name) => {
                let sheet = match data_sheet {
                    None => {
                        return Err(missing_sheet(name));
                    },
                    Some(sheet) => sheet,
                };
                match sheet.retrieve_1d_array_or_string(name.as_str()) {
                    Err(e) => Err(LayoutError::Variant(e)),
                    Ok(ValueSource::Single(v)) => string_value_bytes(&v, self.scalar_type),
                    Ok(ValueSource::Array(values)) => list_bytes(&values, self.scalar_type, config),
                }
            },
            EntrySource::Value(ValueSource::Array(values)) => list_bytes(
                values,
                self.scalar_type,
                config,
            ),
            EntrySource::Value(ValueSource::Single(v)) => string_value_bytes(v, self.scalar_type),
        }
    }

    /// The bytes of an array or string of `size` elements: what the source
    /// supplies, held against the declared size and padded to it.
    pub fn emit_bytes_1d(
        &self,
        data_sheet: Option<&DataSheet>,
        size: usize,
        config: &BuildConfig,
        strict_len: bool,
    ) -> (r: Result<Vec<u8>, LayoutError>)
        ensures
            match r {
                Ok(bytes) => self@.array_bytes(
                    sheet_value(data_sheet),
                    config.rules(),
                    size,
                    strict_len,
                ) == Ok::<Seq<u8>, LayoutErrorView>(bytes@),
                Err(e) => self@.array_bytes(
                    sheet_value(data_sheet),
                    config.rules(),
                    size,
                    strict_len,
                ) == Err::<Seq<u8>, LayoutErrorView>(e@),
            },
    {
        let elem = self.scalar_type.size_bytes();
        let total_bytes = match size.checked_mul(elem) {
            None => {
                return Err(export_error("Array size overflow"));
            },
            Some(total) => total,
        };
        let mut out = match self.array_source_bytes(data_sheet, config) {
            Err(e) => {
                return Err(e);
            },
            Ok(out) => out,
        };
        if out.len() > total_bytes {
            return Err(export_error("Array/string is larger than defined size."));
        }
        if strict_len && out.len() < total_bytes {
            return Err(export_error("Array/string is smaller than defined size (strict SIZE)."));
        }
        pad_to(&mut out, total_bytes, config.padding);
        Ok(out)
    }

    /// The bytes of a matrix of `size[0]` rows by `size[1]` columns from the
    /// data sheet, held against the declared size and padded to it.
    #[verifier::loop_isolation(false)]
    pub fn emit_bytes_2d(
        &self,
        data_sheet: Option<&DataSheet>,
        size: [usize; 2],
        config: &BuildConfig,
        strict_len: bool,
    ) -> (r: Result<Vec<u8>, LayoutError>)
        ensures
            match r {
                Ok(bytes) => self@.matrix_bytes(
                    sheet_value(data_sheet),
                    config.rules(),
                    size[0],
                    size[1],
                    strict_len,
                ) == Ok::<Seq<u8>, LayoutErrorView>(bytes@),
                Err(e) => self@.matrix_bytes(
                    sheet_value(data_sheet),
                    config.rules(),
                    size[0],
                    size[1],
                    strict_len,
                ) == Err::<Seq<u8>, LayoutErrorView>(e@),
            },
    {
        match &self.source {
            EntrySource::Name(name) => {
                let sheet = match data_sheet {
                    None => {
                        return Err(missing_sheet(name));
                    },
                    Some(sheet) => sheet,
                };
                let data = match sheet.retrieve_2d_array(name.as_str()) {
                    Err(e) => {
                        return Err(LayoutError::Variant(e));
                    },
                    Ok(data) => data,
                };
                let rows = size[0];
                let cols = size[1];
                let elem = self.scalar_type.size_bytes();
                let total_elems = match rows.checked_mul(cols) {
                    None => {
                        return Err(export_error("2D size overflow"));
                    },
                    Some(n) => n,
                };
                let total_bytes = match total_elems.checked_mul(elem) {
                    None => {
                        return Err(export_error("2D byte count overflow"));
                    },
                    Some(n) => n,
                };
                let ghost views = matrix_view(data@);
                let mut k: usize = 0;
                while k < data.len()
                    invariant
                        k <= data.len(),
                        views == matrix_view(data@),
                        forall|i: int| 0 <= i < k ==> (#[trigger] views[i]).len() == cols,
                    decreases data.len() - k,
                {
                    if data[k].len() != cols {
                        assert(exists|i: int|
                            0 <= i < views.len() && (#[trigger] views[i]).len() != cols) by {
                            assert(views[k as int].len() != cols);
                        }
                        return Err(export_error("2D array column count mismatch."));
                    }
                    k = k + 1;
                }
                if data.len() > rows {
                    return Err(export_error("2D array row count greater than defined size."));
                }
                if strict_len && data.len() < rows {
                    return Err(
                        export_error("2D array row count smaller than defined size (strict SIZE)."),
                    );
                }
                let mut out: Vec<u8> = Vec::new();
                let mut i: usize = 0;
                while i < data.len()
                    invariant
                        i <= data.len(),
                        views == matrix_view(data@),
                        rows_bytes(views, self.scalar_type, config.rules(), i as int) == Ok::<
                            Seq<u8>,
                            LayoutErrorView,
                        >(out@),
                    decreases data.len() - i,
                {
                    assert(views[i as int] == values_view(data@[i as int]@));
                    assert(views[i as int].len() == data@[i as int]@.len());
                    match convert_all(&data[i], self.scalar_type, config, &mut out) {
                        Err(e) => {
                            proof {
                                lemma_rows_bytes_error(
                                    views,
                                    self.scalar_type,
                                    config.rules(),
                                    i + 1,
                                    views.len() as int,
                                );
                            }
                            return Err(e);
                        },
                        Ok(()) => {},
                    }
                    i = i + 1;
                }
                pad_to(&mut out, total_bytes, config.padding);
                Ok(out)
            },
            EntrySource::Value(_) => Err(
                export_error("2D arrays within the layout file are not supported."),
            ),
        }
    }
}

/// The conversions of `upto` values take `upto` times the width of the
/// type.
pub proof fn lemma_values_bytes_len(
    values: Seq<DataValueView>,
    ty: ScalarType,
    rules: BuildRules,
    upto: int,
)
    requires
        0 <= upto <= values.len(),
        values_bytes(values, ty, rules, upto) is Ok,
    ensures
        values_bytes(values, ty, rules, upto)->Ok_0.len() == upto * ty.width(),
    decreases upto,
{
    if upto > 0 {
        lemma_values_bytes_len(values, ty, rules, upto - 1);
        assert((upto - 1) * ty.width() + ty.width() == upto * ty.width()) by (nonlinear_arith);
    }
}

/// The number of elements in what a source supplies: the values of an
/// array, or the bytes of a string.
pub open spec fn element_count(source: ValueSourceView) -> nat {
    match source {
        ValueSourceView::Array(values) => values.len(),
        ValueSourceView::Single(DataValueView::Str(text)) => vstd::utf8::encode_utf8(text).len(),
        ValueSourceView::Single(_) => 0,
    }
}

impl LeafEntryView {
    /// What the source of the field supplies for an array or a string: what
    /// the layout writes out, or what the data sheet has under the name.
    pub open spec fn supplied(self, data_sheet: Option<DataSheet>) -> Option<ValueSourceView> {
        match self.source {
            EntrySourceView::Name(name) => match data_sheet {
                None => None,
                Some(sheet) => match sheet.array_or_string(name) {
                    Err(_) => None,
                    Ok(source) => Some(source),
                },
            },
            EntrySourceView::Value(source) => Some(source),
        }
    }
}

/// An array or string is held against its declared size, wherever it comes
/// from: more elements than declared are refused, whether the size is exact
/// or not; fewer are refused where the size is exact, and padded where it is
/// not; exactly as many are taken as they are. A declared size whose bytes
/// cannot be counted is refused before that.
pub proof fn lemma_declared_size_is_enforced(
    leaf: LeafEntryView,
    data_sheet: Option<DataSheet>,
    rules: BuildRules,
    declared: usize,
    exact: bool,
)
    requires
        leaf.array_payload(data_sheet, rules) is Ok,
    ensures
        leaf.supplied(data_sheet) is Some,
        ({
            let count = element_count(leaf.supplied(data_sheet)->Some_0);
            let payload = leaf.array_payload(data_sheet, rules)->Ok_0;
            let total = declared * leaf.scalar_type.width();
            let bytes = leaf.array_bytes(data_sheet, rules, declared, exact);
            &&& payload.len() == count * leaf.scalar_type.width()
            &&& total > usize::MAX ==> bytes == Err::<Seq<u8>, LayoutErrorView>(
                export_failed(size_overflow_message()),
            )
            &&& total <= usize::MAX && count > declared ==> bytes == Err::<Seq<u8>, LayoutErrorView>(
                export_failed(larger_message()),
            )
            &&& total <= usize::MAX && count < declared && exact ==> bytes == Err::<
                Seq<u8>,
                LayoutErrorView,
            >(export_failed(smaller_message()))
            &&& total <= usize::MAX && count == declared ==> bytes == Ok::<Seq<u8>, LayoutErrorView>(
                payload,
            )
            &&& total <= usize::MAX && count < declared && !exact ==> bytes == Ok::<
                Seq<u8>,
                LayoutErrorView,
            >(payload + Seq::new((total - payload.len()) as nat, |i: int| rules.padding))
        }),
{
    let width = leaf.scalar_type.width();
    let source = leaf.supplied(data_sheet)->Some_0;
    let count = element_count(source);
    match source {
        ValueSourceView::Array(values) => {
            lemma_values_bytes_len(values, leaf.scalar_type, rules, values.len() as int);
        },
        ValueSourceView::Single(_) => {},
    }
    assert(count > declared ==> count * width > declared * width) by (nonlinear_arith)
        requires
            width >= 1,
    ;
    assert(count < declared ==> count * width < declared * width) by (nonlinear_arith)
        requires
            width >= 1,
    ;
}

} // verus!
