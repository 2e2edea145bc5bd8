pub mod args;
pub mod errors;
pub mod helpers;
pub mod workbook;

use crate::layout::value::{DataValue, DataValueView, ValueSource, ValueSourceView};
use errors::{VariantError, VariantErrorView};
use vstd::prelude::*;
use vstd::string::{StrSliceExecFns, StringExecFns};

verus! {

/// One cell of a sheet.
#[derive(Debug, Clone)]
pub enum Cell {
    Empty,
    Int(i64),
    /// A binary64 number, held as its bit pattern, with the text that the
    /// workbook shows for it.
    Float(u64, String),
    Text(String),
    /// Anything else (a truth value, a date, an error), as the text that
    /// the workbook shows for it.
    Other(String),
}

/// A sheet other than the main one: rows of equal width, the first holding
/// the headers.
#[derive(Debug, Clone)]
pub struct Sheet {
    pub name: String,
    pub rows: Vec<Vec<Cell>>,
}

/// The named values of one build: a name column with the default, debug and
/// variant columns beside it, and the sheets that hold arrays.
#[derive(Debug, Clone)]
pub struct DataSheet {
    pub names: Vec<String>,
    pub default_values: Vec<Cell>,
    pub debug_values: Option<Vec<Cell>>,
    pub variant_values: Option<Vec<Cell>>,
    pub sheets: Vec<Sheet>,
}

/// Whether `c` is white space, as Unicode defines it.
pub open spec fn is_whitespace(c: char) -> bool {
    let u = c as u32;
    (0x09 <= u <= 0x0D) || u == 0x20 || u == 0x85 || u == 0xA0 || u == 0x1680 || (0x2000 <= u
        <= 0x200A) || u == 0x2028 || u == 0x2029 || u == 0x202F || u == 0x205F || u == 0x3000
}

/// Whether a text holds nothing but white space.
pub open spec fn is_blank(s: Seq<char>) -> bool {
    forall|i: int| 0 <= i < s.len() ==> is_whitespace(#[trigger] s[i])
}

/// Whether a cell counts as not filled in.
pub open spec fn cell_is_empty(cell: Cell) -> bool {
    match cell {
        Cell::Empty => true,
        Cell::Text(s) => is_blank(s@),
        _ => false,
    }
}

/// The first position at or after `from` that holds `name`.
pub open spec fn first_index(names: Seq<String>, name: Seq<char>, from: int) -> Option<int>
    decreases names.len() - from,
{
    if from < 0 || from >= names.len() {
        None
    } else if names[from]@ == name {
        Some(from)
    } else {
        first_index(names, name, from + 1)
    }
}

/// The last sheet before `upto` that is called `name`.
pub open spec fn sheet_index(sheets: Seq<Sheet>, name: Seq<char>, upto: int) -> Option<int>
    decreases upto,
{
    if upto <= 0 || upto > sheets.len() {
        None
    } else if sheets[upto - 1].name@ == name {
        Some(upto - 1)
    } else {
        sheet_index(sheets, name, upto - 1)
    }
}

/// The names of the first `upto` sheets, separated by commas.
pub open spec fn sheet_names(sheets: Seq<Sheet>, upto: int) -> Seq<char>
    decreases upto,
{
    if upto <= 0 || upto > sheets.len() {
        Seq::empty()
    } else if upto == 1 {
        sheets[0].name@
    } else {
        sheet_names(sheets, upto - 1) + ", "@ + sheets[upto - 1].name@
    }
}

pub open spec fn retrieval(message: Seq<char>) -> VariantErrorView {
    VariantErrorView::RetrievalError(message)
}

pub open spec fn sheet_not_found_message(sheets: Seq<Sheet>, name: Seq<char>) -> Seq<char> {
    "Sheet not found: '"@ + name + "'. Available sheets: "@ + sheet_names(
        sheets,
        sheets.len() as int,
    )
}

/// The cell at `index` of a column that may be missing or short, if it is
/// filled in.
pub open spec fn filled(column: Option<Vec<Cell>>, index: int) -> Option<Cell> {
    match column {
        Some(cells) => if 0 <= index < cells@.len() && !cell_is_empty(cells@[index]) {
            Some(cells@[index])
        } else {
            None
        },
        None => None,
    }
}

/// The value of a numeric cell.
pub open spec fn number_of(cell: Cell) -> Option<DataValueView> {
    match cell {
        Cell::Int(i) => Some(DataValueView::I64(i)),
        Cell::Float(f, shown) => Some(DataValueView::F64(f, shown@)),
        _ => None,
    }
}

/// The value of a cell of a one-dimensional array.
pub open spec fn element_of(cell: Cell) -> Option<DataValueView> {
    match cell {
        Cell::Int(i) => Some(DataValueView::I64(i)),
        Cell::Float(f, shown) => Some(DataValueView::F64(f, shown@)),
        Cell::Text(s) => Some(DataValueView::Str(s@)),
        _ => None,
    }
}

/// `more` behind `head`, or the error of `more`.
pub open spec fn prepend<T>(head: Seq<T>, more: Result<Seq<T>, VariantErrorView>) -> Result<
    Seq<T>,
    VariantErrorView,
> {
    match more {
        Ok(rest) => Ok(head + rest),
        Err(e) => Err(e),
    }
}

/// The first cells of the rows from `from` on, down to the first row whose
/// first cell is not filled in.
pub open spec fn column_values(rows: Seq<Vec<Cell>>, from: int) -> Result<
    Seq<DataValueView>,
    VariantErrorView,
>
    decreases rows.len() - from,
{
    if from < 0 || from >= rows.len() {
        Ok(Seq::empty())
    } else if rows[from]@.len() == 0 || cell_is_empty(rows[from]@[0]) {
        Ok(Seq::empty())
    } else {
        match element_of(rows[from]@[0]) {
            None => Err(retrieval("Unsupported data type in 1D array"@)),
            Some(v) => prepend(seq![v], column_values(rows, from + 1)),
        }
    }
}

/// The number of filled header cells before the first that is not.
pub open spec fn header_width(headers: Seq<Cell>, from: int) -> int
    decreases headers.len() - from,
{
    if from < 0 || from >= headers.len() || cell_is_empty(headers[from]) {
        0
    } else {
        1 + header_width(headers, from + 1)
    }
}

/// Whether the first `width` cells of a row are there and filled in.
pub open spec fn row_is_full(row: Seq<Cell>, width: int) -> bool {
    width <= row.len() && forall|c: int| 0 <= c < width ==> !cell_is_empty(#[trigger] row[c])
}

/// The first `upto` cells of a full row as numbers; the first cell that is no
/// number is an error.
pub open spec fn row_values(row: Seq<Cell>, upto: int) -> Result<
    Seq<DataValueView>,
    VariantErrorView,
>
    decreases upto,
{
    if upto <= 0 || upto > row.len() {
        Ok(Seq::empty())
    } else {
        match row_values(row, upto - 1) {
            Err(e) => Err(e),
            Ok(head) => match number_of(row[upto - 1]) {
                None => Err(retrieval("Unsupported data type in 2D array"@)),
                Some(v) => Ok(head.push(v)),
            },
        }
    }
}

/// The number of cells at the start of `row`, at most `width`, that come
/// before the first one that is missing or not filled in.
pub open spec fn filled_prefix(row: Seq<Cell>, width: int, from: int) -> int
    decreases width - from,
{
    if from < 0 || from >= width || from >= row.len() || cell_is_empty(row[from]) {
        0
    } else {
        1 + filled_prefix(row, width, from + 1)
    }
}

/// The rows of a matrix of `width` columns from row `from` on. Reading stops
/// before the first row that has a gap in its first `width` cells; the cells
/// before such a gap are still looked at, and one that is no number is an
/// error.
pub open spec fn matrix_values(rows: Seq<Vec<Cell>>, width: int, from: int) -> Result<
    Seq<Seq<DataValueView>>,
    VariantErrorView,
>
    decreases rows.len() - from,
{
    if from < 0 || from >= rows.len() {
        Ok(Seq::empty())
    } else {
        let row = rows[from]@;
        let reach = filled_prefix(row, width, 0);
        if reach == 0 {
            Ok(Seq::empty())
        } else {
            match row_values(row, reach) {
                Err(e) => Err(e),
                Ok(values) => if reach < width {
                    Ok(Seq::empty())
                } else {
                    prepend(seq![values], matrix_values(rows, width, from + 1))
                },
            }
        }
    }
}

impl DataSheet {
    /// The cell that holds the value called `name`: the first row with that
    /// name, and there the debug column, else the variant column, else the
    /// default column, whichever is filled in first.
    pub open spec fn cell_of(self, name: Seq<char>) -> Result<Cell, VariantErrorView> {
        match first_index(self.names@, name, 0) {
            None => Err(retrieval("index not found in data sheet"@)),
            Some(index) => match filled(self.debug_values, index) {
                Some(cell) => Ok(cell),
                None => match filled(self.variant_values, index) {
                    Some(cell) => Ok(cell),
                    None => match filled(Some(self.default_values), index) {
                        Some(cell) => Ok(cell),
                        None => Err(retrieval("data not found in any variant column"@)),
                    },
                },
            },
        }
    }

    /// The sheet that a cell text of the form `#name` refers to.
    pub open spec fn sheet_of(self, name: Seq<char>) -> Result<Sheet, VariantErrorView> {
        match sheet_index(self.sheets@, name, self.sheets@.len() as int) {
            Some(i) => Ok(self.sheets@[i]),
            None => Err(retrieval(sheet_not_found_message(self.sheets@, name))),
        }
    }

    pub open spec fn single_value_inner(self, name: Seq<char>) -> Result<
        DataValueView,
        VariantErrorView,
    > {
        match self.cell_of(name) {
            Err(e) => Err(e),
            Ok(cell) => match number_of(cell) {
                Some(v) => Ok(v),
                None => Err(retrieval("Found non-numeric single value"@)),
            },
        }
    }

    pub open spec fn array_or_string_inner(self, name: Seq<char>) -> Result<
        ValueSourceView,
        VariantErrorView,
    > {
        match self.cell_of(name) {
            Err(e) => Err(e),
            Ok(Cell::Text(text)) => if text@.len() > 0 && text@[0] == '#' {
                match self.sheet_of(text@.subrange(1, text@.len() as int)) {
                    Err(e) => Err(e),
                    Ok(sheet) => match column_values(sheet.rows@, 1) {
                        Err(e) => Err(e),
                        Ok(values) => Ok(ValueSourceView::Array(values)),
                    },
                }
            } else {
                Ok(ValueSourceView::Single(DataValueView::Str(text@)))
            },
            Ok(_) => Err(retrieval("Expected string value for 1D array or string"@)),
        }
    }

    pub open spec fn matrix_inner(self, name: Seq<char>) -> Result<
        Seq<Seq<DataValueView>>,
        VariantErrorView,
    > {
        match self.cell_of(name) {
            Err(e) => Err(e),
            Ok(Cell::Text(text)) => if text@.len() > 0 && text@[0] == '#' {
                match self.sheet_of(text@.subrange(1, text@.len() as int)) {
                    Err(e) => Err(e),
                    Ok(sheet) => if sheet.rows@.len() == 0 {
                        Err(retrieval("No headers found in 2D array"@))
                    } else if header_width(sheet.rows@[0]@, 0) == 0 {
                        Err(retrieval("Detected zero width 2D array"@))
                    } else {
                        matrix_values(sheet.rows@, header_width(sheet.rows@[0]@, 0), 1)
                    },
                }
            } else {
                Err(retrieval("2D array reference must start with '#' prefix, got: "@ + text@))
            },
            Ok(_) => Err(retrieval("Expected string value for 2D array"@)),
        }
    }

    /// The number called `name`.
    pub open spec fn single_value(self, name: Seq<char>) -> Result<
        DataValueView,
        VariantErrorView,
    > {
        match self.single_value_inner(name) {
            Ok(v) => Ok(v),
            Err(e) => Err(VariantErrorView::WhileRetrieving { name, source: Box::new(e) }),
        }
    }

    /// The string called `name`, or the array in the sheet that it refers to.
    pub open spec fn array_or_string(self, name: Seq<char>) -> Result<
        ValueSourceView,
        VariantErrorView,
    > {
        match self.array_or_string_inner(name) {
            Ok(v) => Ok(v),
            Err(e) => Err(VariantErrorView::WhileRetrieving { name, source: Box::new(e) }),
        }
    }

    /// The matrix in the sheet that the cell called `name` refers to.
    pub open spec fn matrix(self, name: Seq<char>) -> Result<
        Seq<Seq<DataValueView>>,
        VariantErrorView,
    > {
        match self.matrix_inner(name) {
            Ok(v) => Ok(v),
            Err(e) => Err(VariantErrorView::WhileRetrieving { name, source: Box::new(e) }),
        }
    }
}

/// The contents of the rows of a matrix.
pub open spec fn matrix_view(rows: Seq<Vec<DataValue>>) -> Seq<Seq<DataValueView>> {
    Seq::new(rows.len(), |i: int| crate::layout::value::values_view(rows[i]@))
}

fn is_whitespace_char(c: char) -> (r: bool)
    ensures
        r == is_whitespace(c),
{
    let u = c as u32;
    (0x09 <= u && u <= 0x0D) || u == 0x20 || u == 0x85 || u == 0xA0 || u == 0x1680 || (0x2000 <= u
        && u <= 0x200A) || u == 0x2028 || u == 0x2029 || u == 0x202F || u == 0x205F || u == 0x3000
}

fn text_is_blank(text: &str) -> (r: bool)
    ensures
        r == is_blank(text@),
{
    let n = text.unicode_len();
    let mut i: usize = 0;
    while i < n
        invariant
            i <= n,
            n == text@.len(),
            forall|k: int| 0 <= k < i ==> is_whitespace(#[trigger] text@[k]),
        decreases n - i,
    {
        if !is_whitespace_char(text.get_char(i)) {
            return false;
        }
        i = i + 1;
    }
    true
}

fn cell_is_blank(cell: &Cell) -> (r: bool)
    ensures
        r == cell_is_empty(*cell),
{
    match cell {
        Cell::Empty => true,
        Cell::Text(s) => text_is_blank(s.as_str()),
        _ => false,
    }
}

fn retrieval_error(message: &str) -> (e: VariantError)
    ensures
        e@ == retrieval(message@),
{
    VariantError::RetrievalError(String::from_str(message))
}

fn while_retrieving(name: &str, source: VariantError) -> (e: VariantError)
    ensures
        e@ == (VariantErrorView::WhileRetrieving { name: name@, source: Box::new(source@) }),
{
    VariantError::WhileRetrieving { name: String::from_str(name), source: Box::new(source) }
}

/// The cell at `index` of a column, if it is there and filled in.
fn filled_cell<'a>(column: &'a Vec<Cell>, index: usize) -> (r: Option<&'a Cell>)
    ensures
        match r {
            Some(cell) => filled(Some(*column), index as int) == Some(*cell),
            None => filled(Some(*column), index as int) is None,
        },
{
    if index < column.len() && !cell_is_blank(&column[index]) {
        Some(&column[index])
    } else {
        None
    }
}

fn filled_optional<'a>(column: &'a Option<Vec<Cell>>, index: usize) -> (r: Option<&'a Cell>)
    ensures
        match r {
            Some(cell) => filled(*column, index as int) == Some(*cell),
            None => filled(*column, index as int) is None,
        },
{
    match column {
        Some(cells) => filled_cell(cells, index),
        None => None,
    }
}

fn number_in(cell: &Cell) -> (r: Option<DataValue>)
    ensures
        match r {
            Some(v) => number_of(*cell) == Some(v@),
            None => number_of(*cell) is None,
        },
{
    match cell {
        Cell::Int(i) => Some(DataValue::I64(*i)),
        Cell::Float(f, shown) => Some(DataValue::F64(*f, shown.clone())),
        _ => None,
    }
}

fn element_in(cell: &Cell) -> (r: Option<DataValue>)
    ensures
        match r {
            Some(v) => element_of(*cell) == Some(v@),
            None => element_of(*cell) is None,
        },
{
    match cell {
        Cell::Int(i) => Some(DataValue::I64(*i)),
        Cell::Float(f, shown) => Some(DataValue::F64(*f, shown.clone())),
        Cell::Text(s) => Some(DataValue::Str(s.clone())),
        _ => None,
    }
}

/// Reads the first cells of the rows after the header row.
fn read_column(rows: &Vec<Vec<Cell>>) -> (r: Result<Vec<DataValue>, VariantError>)
    ensures
        match r {
            Ok(values) => column_values(rows@, 1) == Ok::<Seq<DataValueView>, VariantErrorView>(
                crate::layout::value::values_view(values@),
            ),
            Err(e) => column_values(rows@, 1) == Err::<Seq<DataValueView>, VariantErrorView>(e@),
        },
{
    let mut out: Vec<DataValue> = Vec::new();
    let mut i: usize = 1;
    while i < rows.len()
        invariant
            1 <= i,
            column_values(rows@, 1) == prepend(
                crate::layout::value::values_view(out@),
                column_values(rows@, i as int),
            ),
        decreases rows.len() - i,
    {
        let row = &rows[i];
        if row.len() == 0 || cell_is_blank(&row[0]) {
            assert(crate::layout::value::values_view(out@) + Seq::<DataValueView>::empty()
                =~= crate::layout::value::values_view(out@));
            return Ok(out);
        }
        match element_in(&row[0]) {
            None => {
                return Err(retrieval_error("Unsupported data type in 1D array"));
            },
            Some(v) => {
                proof {
                    let rest = column_values(rows@, i + 1);
                    let head = crate::layout::value::values_view(out@);
                    let next = crate::layout::value::values_view(out@.push(v));
                    assert(next =~= head + seq![v@]);
                    match rest {
                        Ok(tail) => {
                            assert(head + (seq![v@] + tail) =~= next + tail);
                        },
                        Err(_) => {},
                    }
                }
                out.push(v);
            },
        }
        i = i + 1;
    }
    assert(crate::layout::value::values_view(out@) + Seq::<DataValueView>::empty()
        =~= crate::layout::value::values_view(out@));
    Ok(out)
}

/// Counts the filled header cells before the first that is not.
fn count_headers(headers: &Vec<Cell>) -> (width: usize)
    ensures
        width == header_width(headers@, 0),
{
    let mut width: usize = 0;
    while width < headers.len() && !cell_is_blank(&headers[width])
        invariant
            width <= headers.len(),
            header_width(headers@, 0) == width + header_width(headers@, width as int),
        decreases headers.len() - width,
    {
        width = width + 1;
    }
    width
}

/// Reads one row of a matrix: its numbers, and whether the row was full.
fn read_row(row: &Vec<Cell>, width: usize) -> (r: Result<(Vec<DataValue>, bool), VariantError>)
    ensures
        match r {
            Ok((values, full)) => {
                &&& full == (filled_prefix(row@, width as int, 0) == width)
                &&& row_values(row@, filled_prefix(row@, width as int, 0)) == Ok::<
                    Seq<DataValueView>,
                    VariantErrorView,
                >(crate::layout::value::values_view(values@))
            },
            Err(e) => row_values(row@, filled_prefix(row@, width as int, 0)) == Err::<
                Seq<DataValueView>,
                VariantErrorView,
            >(e@),
        },
{
    let mut values: Vec<DataValue> = Vec::new();
    let mut col: usize = 0;
    proof {
        assert(crate::layout::value::values_view(values@) =~= Seq::<DataValueView>::empty());
        lemma_filled_prefix_bound(row@, width as int, 0);
    }
    while col < width
        invariant
            col <= width,
            col <= row@.len(),
            filled_prefix(row@, width as int, 0) == col + filled_prefix(
                row@,
                width as int,
                col as int,
            ),
            row_values(row@, col as int) == Ok::<Seq<DataValueView>, VariantErrorView>(
                crate::layout::value::values_view(values@),
            ),
        decreases width - col,
    {
        if col >= row.len() || cell_is_blank(&row[col]) {
            return Ok((values, false));
        }
        match number_in(&row[col]) {
            None => {
                proof {
                    lemma_filled_prefix_bound(row@, width as int, col as int);
                    lemma_filled_prefix_bound(row@, width as int, col + 1);
                    assert(filled_prefix(row@, width as int, col as int) == 1 + filled_prefix(
                        row@,
                        width as int,
                        col + 1,
                    ));
                    lemma_row_values_error(row@, col as int, filled_prefix(row@, width as int, 0));
                }
                return Err(retrieval_error("Unsupported data type in 2D array"));
            },
            Some(v) => {
                assert(crate::layout::value::values_view(values@.push(v))
                    =~= crate::layout::value::values_view(values@).push(v@));
                values.push(v);
            },
        }
        col = col + 1;
    }
    Ok((values, true))
}

/// A row can only fail in one way.
proof fn lemma_row_values_only_error(row: Seq<Cell>, upto: int)
    ensures
        row_values(row, upto) matches Err(e) ==> e == retrieval(
            "Unsupported data type in 2D array"@,
        ),
    decreases upto,
{
    if 0 < upto <= row.len() {
        lemma_row_values_only_error(row, upto - 1);
    }
}

/// Once a cell is no number, every longer reading of the row fails too.
proof fn lemma_row_values_error(row: Seq<Cell>, bad: int, upto: int)
    requires
        0 <= bad < upto <= row.len(),
        number_of(row[bad]) is None,
    ensures
        row_values(row, upto) == Err::<Seq<DataValueView>, VariantErrorView>(
            retrieval("Unsupported data type in 2D array"@),
        ),
    decreases upto,
{
    if upto - 1 > bad {
        lemma_row_values_error(row, bad, upto - 1);
    } else {
        lemma_row_values_only_error(row, upto - 1);
    }
}

/// The filled cells at the start of a row are cells of the row, and no more
/// are counted than the matrix is wide.
proof fn lemma_filled_prefix_bound(row: Seq<Cell>, width: int, from: int)
    requires
        0 <= from,
    ensures
        0 <= filled_prefix(row, width, from),
        from + filled_prefix(row, width, from) <= row.len() || filled_prefix(row, width, from)
            == 0,
        from + filled_prefix(row, width, from) <= width || filled_prefix(row, width, from) == 0,
    decreases width - from,
{
    if from < width && from < row.len() && !cell_is_empty(row[from]) {
        lemma_filled_prefix_bound(row, width, from + 1);
    }
}

/// Reads the rows of a matrix after the header row.
fn read_matrix(rows: &Vec<Vec<Cell>>, width: usize) -> (r: Result<
    Vec<Vec<DataValue>>,
    VariantError,
>)
    requires
        width > 0,
    ensures
        match r {
            Ok(values) => matrix_values(rows@, width as int, 1) == Ok::<
                Seq<Seq<DataValueView>>,
                VariantErrorView,
            >(matrix_view(values@)),
            Err(e) => matrix_values(rows@, width as int, 1) == Err::<
                Seq<Seq<DataValueView>>,
                VariantErrorView,
            >(e@),
        },
{
    let mut out: Vec<Vec<DataValue>> = Vec::new();
    let mut i: usize = 1;
    while i < rows.len()
        invariant
            1 <= i,
            width > 0,
            matrix_values(rows@, width as int, 1) == prepend(
                matrix_view(out@),
                matrix_values(rows@, width as int, i as int),
            ),
        decreases rows.len() - i,
    {
        let row = &rows[i];
        proof {
            lemma_filled_prefix_bound(row@, width as int, 0);
        }
        match read_row(row, width) {
            Err(e) => {
                assert(filled_prefix(row@, width as int, 0) > 0);
                return Err(e);
            },
            Ok((values, full)) => {
                if !full {
                    assert(matrix_view(out@) + Seq::<Seq<DataValueView>>::empty() =~= matrix_view(
                        out@,
                    ));
                    return Ok(out);
                }
                proof {
                    let rest = matrix_values(rows@, width as int, i + 1);
                    let head = matrix_view(out@);
                    let item = crate::layout::value::values_view(values@);
                    let next = matrix_view(out@.push(values));
                    assert(next =~= head + seq![item]);
                    match rest {
                        Ok(tail) => {
                            assert(head + (seq![item] + tail) =~= next + tail);
                        },
                        Err(_) => {},
                    }
                }
                out.push(values);
            },
        }
        i = i + 1;
    }
    assert(matrix_view(out@) + Seq::<Seq<DataValueView>>::empty() =~= matrix_view(out@));
    Ok(out)
}

impl DataSheet {
    fn retrieve_cell(&self, name: &str) -> (r: Result<&Cell, VariantError>)
        ensures
            match r {
                Ok(cell) => self.cell_of(name@) == Ok::<Cell, VariantErrorView>(*cell),
                Err(e) => self.cell_of(name@) == Err::<Cell, VariantErrorView>(e@),
            },
    {
        let wanted = String::from_str(name);
        let mut index: usize = 0;
        while index < self.names.len() && !(self.names[index] == wanted)
            invariant
                index <= self.names.len(),
                wanted@ == name@,
                first_index(self.names@, name@, 0) == first_index(
                    self.names@,
                    name@,
                    index as int,
                ),
            decreases self.names.len() - index,
        {
            index = index + 1;
        }
        if index >= self.names.len() {
            return Err(retrieval_error("index not found in data sheet"));
        }
        match filled_optional(&self.debug_values, index) {
            Some(cell) => Ok(cell),
            None => match filled_optional(&self.variant_values, index) {
                Some(cell) => Ok(cell),
                None => match filled_cell(&self.default_values, index) {
                    Some(cell) => Ok(cell),
                    None => Err(retrieval_error("data not found in any variant column")),
                },
            },
        }
    }

    fn sheet_names_text(&self) -> (text: String)
        ensures
            text@ == sheet_names(self.sheets@, self.sheets@.len() as int),
    {
        let mut text = String::new();
        let mut i: usize = 0;
        while i < self.sheets.len()
            invariant
                i <= self.sheets.len(),
                text@ == sheet_names(self.sheets@, i as int),
            decreases self.sheets.len() - i,
        {
            if i > 0 {
                text.append(", ");
            }
            text.append(self.sheets[i].name.as_str());
            proof {
                if i == 0 {
                    assert(Seq::<char>::empty() + self.sheets@[0].name@ =~= self.sheets@[0].name@);
                }
            }
            i = i + 1;
        }
        text
    }

    fn find_sheet(&self, name: &str) -> (r: Result<&Sheet, VariantError>)
        ensures
            match r {
                Ok(sheet) => self.sheet_of(name@) == Ok::<Sheet, VariantErrorView>(*sheet),
                Err(e) => self.sheet_of(name@) == Err::<Sheet, VariantErrorView>(e@),
            },
    {
        let wanted = String::from_str(name);
        let mut upto: usize = self.sheets.len();
        while upto > 0 && !(self.sheets[upto - 1].name == wanted)
            invariant
                upto <= self.sheets.len(),
                wanted@ == name@,
                sheet_index(self.sheets@, name@, self.sheets@.len() as int) == sheet_index(
                    self.sheets@,
                    name@,
                    upto as int,
                ),
            decreases upto,
        {
            upto = upto - 1;
        }
        if upto == 0 {
            let mut text = String::from_str("Sheet not found: '");
            text.append(name);
            text.append("'. Available sheets: ");
            let names = self.sheet_names_text();
            text.append(names.as_str());
            Err(VariantError::RetrievalError(text))
        } else {
            Ok(&self.sheets[upto - 1])
        }
    }

    /// Looks up the number called `name`.
    pub fn retrieve_single_value(&self, name: &str) -> (r: Result<DataValue, VariantError>)
        ensures
            match r {
                Ok(v) => self.single_value(name@) == Ok::<DataValueView, VariantErrorView>(v@),
                Err(e) => self.single_value(name@) == Err::<DataValueView, VariantErrorView>(e@),
            },
    {
        match self.retrieve_cell(name) {
            Err(e) => Err(while_retrieving(name, e)),
            Ok(cell) => match number_in(cell) {
                Some(v) => Ok(v),
                None => Err(
                    while_retrieving(name, retrieval_error("Found non-numeric single value")),
                ),
            },
        }
    }

    /// Looks up the string called `name`; a string of the form `#sheet`
    /// stands for the first column of that sheet, below its header.
    pub fn retrieve_1d_array_or_string(&self, name: &str) -> (r: Result<ValueSource, VariantError>)
        ensures
            match r {
                Ok(v) => self.array_or_string(name@) == Ok::<ValueSourceView, VariantErrorView>(
                    v@,
                ),
                Err(e) => self.array_or_string(name@) == Err::<ValueSourceView, VariantErrorView>(
                    e@,
                ),
            },
    {
        let cell = match self.retrieve_cell(name) {
            Err(e) => {
                return Err(while_retrieving(name, e));
            },
            Ok(cell) => cell,
        };
        match cell {
            Cell::Text(text) => {
                let n = text.as_str().unicode_len();
                if n > 0 && text.as_str().get_char(0) == '#' {
                    let sheet_name = text.as_str().substring_char(1, n);
                    match self.find_sheet(sheet_name) {
                        Err(e) => Err(while_retrieving(name, e)),
                        Ok(sheet) => match read_column(&sheet.rows) {
                            Err(e) => Err(while_retrieving(name, e)),
                            Ok(values) => Ok(ValueSource::Array(values)),
                        },
                    }
                } else {
                    Ok(ValueSource::Single(DataValue::Str(text.clone())))
                }
            },
            _ => Err(
                while_retrieving(
                    name,
                    retrieval_error("Expected string value for 1D array or string"),
                ),
            ),
        }
    }

    /// Looks up the matrix in the sheet that the cell called `name` refers
    /// to: the rows below the header, as wide as the header is filled in.
    pub fn retrieve_2d_array(&self, name: &str) -> (r: Result<Vec<Vec<DataValue>>, VariantError>)
        ensures
            match r {
                Ok(v) => self.matrix(name@) == Ok::<Seq<Seq<DataValueView>>, VariantErrorView>(
                    matrix_view(v@),
                ),
                Err(e) => self.matrix(name@) == Err::<Seq<Seq<DataValueView>>, VariantErrorView>(
                    e@,
                ),
            },
    {
        let cell = match self.retrieve_cell(name) {
            Err(e) => {
                return Err(while_retrieving(name, e));
            },
            Ok(cell) => cell,
        };
        match cell {
            Cell::Text(text) => {
                let n = text.as_str().unicode_len();
                if n > 0 && text.as_str().get_char(0) == '#' {
                    let sheet_name = text.as_str().substring_char(1, n);
                    match self.find_sheet(sheet_name) {
                        Err(e) => Err(while_retrieving(name, e)),
                        Ok(sheet) => {
                            if sheet.rows.len() == 0 {
                                return Err(
                                    while_retrieving(
                                        name,
                                        retrieval_error("No headers found in 2D array"),
                                    ),
                                );
                            }
                            let width = count_headers(&sheet.rows[0]);
                            if width == 0 {
                                return Err(
                                    while_retrieving(
                                        name,
                                        retrieval_error("Detected zero width 2D array"),
                                    ),
                                );
                            }
                            match read_matrix(&sheet.rows, width) {
                                Err(e) => Err(while_retrieving(name, e)),
                                Ok(values) => Ok(values),
                            }
                        },
                    }
                } else {
                    let mut message = String::from_str(
                        "2D array reference must start with '#' prefix, got: ",
                    );
                    message.append(text.as_str());
                    Err(while_retrieving(name, VariantError::RetrievalError(message)))
                }
            },
            _ => Err(
                while_retrieving(name, retrieval_error("Expected string value for 2D array")),
            ),
        }
    }
}

} // verus!
