//! The main sheet of a workbook turned into the named values of a build.

use super::args::VariantArgs;
use super::errors::{VariantError, VariantErrorView};
use super::{is_whitespace, Cell, DataSheet, Sheet};
use crate::layout::text::{push_signed_decimal, signed_decimal};
use vstd::prelude::*;
use vstd::string::{StrSliceExecFns, StringExecFns};

verus! {

/// The first position at or after `from` that holds no white space.
pub open spec fn text_start(text: Seq<char>, from: int) -> int
    decreases text.len() - from,
{
    if from < 0 || from >= text.len() || !is_whitespace(text[from]) {
        from
    } else {
        text_start(text, from + 1)
    }
}

/// The end of the last stretch without white space that ends at or before
/// `upto`.
pub open spec fn text_end(text: Seq<char>, upto: int) -> int
    decreases upto,
{
    if upto <= 0 || upto > text.len() || !is_whitespace(text[upto - 1]) {
        upto
    } else {
        text_end(text, upto - 1)
    }
}

/// `text` without the white space at its start and at its end.
pub open spec fn trimmed(text: Seq<char>) -> Seq<char> {
    let start = text_start(text, 0);
    let end = text_end(text, text.len() as int);
    if start >= end {
        Seq::empty()
    } else {
        text.subrange(start, end)
    }
}

/// The code of `c`, with the upper-case ASCII letters turned to lower case.
pub open spec fn lower_code(c: char) -> u32 {
    let code = c as u32;
    if 0x41 <= code <= 0x5A {
        (code + 0x20) as u32
    } else {
        code
    }
}

/// Whether two texts are equal but for the case of their ASCII letters.
pub open spec fn same_ignoring_case(a: Seq<char>, b: Seq<char>) -> bool {
    a.len() == b.len() && forall|i: int| 0 <= i < a.len() ==> lower_code(#[trigger] a[i])
        == lower_code(b[i])
}

/// Whether a header cell names the column `target`.
pub open spec fn header_matches(cell: Cell, target: Seq<char>) -> bool {
    cell matches Cell::Text(s) && same_ignoring_case(trimmed(s@), target)
}

/// The first column at or after `from` whose header names `target`.
pub open spec fn column_index(headers: Seq<Cell>, target: Seq<char>, from: int) -> Option<int>
    decreases headers.len() - from,
{
    if from < 0 || from >= headers.len() {
        None
    } else if header_matches(headers[from], target) {
        Some(from)
    } else {
        column_index(headers, target, from + 1)
    }
}

/// The cell of a row in a column; a row that is too short has an empty one.
pub open spec fn cell_at(row: Seq<Cell>, column: int) -> Cell {
    if 0 <= column < row.len() {
        row[column]
    } else {
        Cell::Empty
    }
}

/// The name that a cell of the name column gives: its text as the workbook
/// shows it, an integer in decimal digits, without the white space around
/// it. An empty cell gives the empty name.
pub open spec fn name_of(cell: Cell) -> Seq<char> {
    match cell {
        Cell::Text(s) => trimmed(s@),
        Cell::Int(i) => signed_decimal(i as int),
        Cell::Float(_, shown) => trimmed(shown@),
        Cell::Other(shown) => trimmed(shown@),
        Cell::Empty => Seq::empty(),
    }
}

/// Whether `cells` is the column `column` of the rows below the header.
pub open spec fn is_column(cells: Seq<Cell>, rows: Seq<Vec<Cell>>, column: int) -> bool {
    cells.len() == rows.len() - 1 && forall|k: int|
        0 <= k < cells.len() ==> #[trigger] cells[k] == cell_at(rows[k + 1]@, column)
}

/// Whether `cells` is the column called `target`, where one is asked for.
pub open spec fn is_optional_column(
    cells: Option<Vec<Cell>>,
    rows: Seq<Vec<Cell>>,
    target: Option<Seq<char>>,
) -> bool {
    match target {
        None => cells is None,
        Some(name) => cells matches Some(found) && column_index(rows[0]@, name, 0) matches Some(
            column,
        ) && is_column(found@, rows, column),
    }
}

/// The column that is asked for, by name.
pub open spec fn wanted(name: Option<String>) -> Option<Seq<char>> {
    match name {
        Some(n) => Some(n@),
        None => None,
    }
}

/// The debug column, where it is asked for.
pub open spec fn wanted_debug(debug: bool) -> Option<Seq<char>> {
    if debug {
        Some("Debug"@)
    } else {
        None
    }
}

/// The first column that is asked for and not there, in the order in which
/// the columns are looked up.
pub open spec fn missing_column(headers: Seq<Cell>, variant: Option<Seq<char>>, debug: bool) -> Option<
    Seq<char>,
> {
    if column_index(headers, "Name"@, 0) is None {
        Some("Name"@)
    } else if column_index(headers, "Default"@, 0) is None {
        Some("Default"@)
    } else if debug && column_index(headers, "Debug"@, 0) is None {
        Some("Debug"@)
    } else {
        match variant {
            Some(name) => if column_index(headers, name, 0) is None {
                Some(name)
            } else {
                None
            },
            None => None,
        }
    }
}

/// Whether `sheet` holds the values of the main sheet `rows`: the names of
/// the name column, and beside them the default column and the debug and
/// variant columns that are asked for.
pub open spec fn holds_main_sheet(
    sheet: DataSheet,
    rows: Seq<Vec<Cell>>,
    variant: Option<Seq<char>>,
    debug: bool,
) -> bool {
    &&& column_index(rows[0]@, "Name"@, 0) matches Some(name_column)
    &&& sheet.names@.len() == rows.len() - 1
    &&& forall|k: int|
        0 <= k < sheet.names@.len() ==> (#[trigger] sheet.names@[k])@ == name_of(
            cell_at(rows[k + 1]@, name_column),
        )
    &&& column_index(rows[0]@, "Default"@, 0) matches Some(default_column)
    &&& is_column(sheet.default_values@, rows, default_column)
    &&& is_optional_column(sheet.debug_values, rows, wanted_debug(debug))
    &&& is_optional_column(sheet.variant_values, rows, variant)
}

fn is_space(c: char) -> (r: bool)
    ensures
        r == is_whitespace(c),
{
    let u = c as u32;
    (0x09 <= u && u <= 0x0D) || u == 0x20 || u == 0x85 || u == 0xA0 || u == 0x1680 || (0x2000 <= u
        && u <= 0x200A) || u == 0x2028 || u == 0x2029 || u == 0x202F || u == 0x205F || u == 0x3000
}

/// `text` without the white space at its start and at its end.
pub fn trim(text: &str) -> (r: &str)
    ensures
        r@ == trimmed(text@),
{
    let n = text.unicode_len();
    let mut start: usize = 0;
    while start < n && is_space(text.get_char(start))
        invariant
            start <= n,
            n == text@.len(),
            text_start(text@, 0) == text_start(text@, start as int),
        decreases n - start,
    {
        start = start + 1;
    }
    let mut end: usize = n;
    while end > 0 && is_space(text.get_char(end - 1))
        invariant
            end <= n,
            n == text@.len(),
            text_end(text@, n as int) == text_end(text@, end as int),
        decreases end,
    {
        end = end - 1;
    }
    if start >= end {
        let empty = text.substring_char(0, 0);
        assert(empty@ =~= Seq::<char>::empty());
        empty
    } else {
        text.substring_char(start, end)
    }
}

fn lower(c: char) -> (r: u32)
    ensures
        r == lower_code(c),
{
    let code = c as u32;
    if 0x41 <= code && code <= 0x5A {
        code + 0x20
    } else {
        code
    }
}

/// Whether two texts are equal but for the case of their ASCII letters.
pub fn eq_ignoring_case(a: &str, b: &str) -> (r: bool)
    ensures
        r == same_ignoring_case(a@, b@),
{
    let n = a.unicode_len();
    if n != b.unicode_len() {
        return false;
    }
    let mut i: usize = 0;
    while i < n
        invariant
            i <= n,
            n == a@.len(),
            n == b@.len(),
            forall|k: int| 0 <= k < i ==> lower_code(#[trigger] a@[k]) == lower_code(b@[k]),
        decreases n - i,
    {
        if lower(a.get_char(i)) != lower(b.get_char(i)) {
            return false;
        }
        i = i + 1;
    }
    true
}

fn header_names(cell: &Cell, target: &str) -> (r: bool)
    ensures
        r == header_matches(*cell, target@),
{
    match cell {
        Cell::Text(s) => eq_ignoring_case(trim(s.as_str()), target),
        _ => false,
    }
}

/// The first column whose header names `target`.
pub fn find_column(headers: &Vec<Cell>, target: &str) -> (r: Option<usize>)
    ensures
        match r {
            Some(column) => column_index(headers@, target@, 0) == Some(column as int) && column
                < headers@.len(),
            None => column_index(headers@, target@, 0) is None,
        },
{
    let mut i: usize = 0;
    while i < headers.len()
        invariant
            i <= headers@.len(),
            column_index(headers@, target@, 0) == column_index(headers@, target@, i as int),
        decreases headers@.len() - i,
    {
        if header_names(&headers[i], target) {
            return Some(i);
        }
        i = i + 1;
    }
    None
}

fn copy_cell(cell: &Cell) -> (r: Cell)
    ensures
        r == *cell,
{
    match cell {
        Cell::Empty => Cell::Empty,
        Cell::Int(i) => Cell::Int(*i),
        Cell::Float(f, shown) => Cell::Float(*f, shown.clone()),
        Cell::Text(s) => Cell::Text(s.clone()),
        Cell::Other(shown) => Cell::Other(shown.clone()),
    }
}

/// The column `column` of the rows below the header.
fn read_cells(rows: &Vec<Vec<Cell>>, column: usize) -> (cells: Vec<Cell>)
    requires
        rows@.len() > 0,
    ensures
        is_column(cells@, rows@, column as int),
{
    let mut cells: Vec<Cell> = Vec::new();
    let mut i: usize = 1;
    while i < rows.len()
        invariant
            1 <= i <= rows@.len(),
            cells@.len() == i - 1,
            forall|k: int|
                0 <= k < cells@.len() ==> #[trigger] cells@[k] == cell_at(
                    rows@[k + 1]@,
                    column as int,
                ),
        decreases rows@.len() - i,
    {
        let row = &rows[i];
        let cell = if column < row.len() {
            copy_cell(&row[column])
        } else {
            Cell::Empty
        };
        cells.push(cell);
        i = i + 1;
    }
    cells
}

fn name_text(cell: &Cell) -> (name: String)
    ensures
        name@ == name_of(*cell),
{
    match cell {
        Cell::Text(s) => String::from_str(trim(s.as_str())),
        Cell::Int(i) => {
            let mut text = String::new();
            push_signed_decimal(&mut text, *i);
            assert(text@ =~= signed_decimal(*i as int));
            text
        },
        Cell::Float(_, shown) => String::from_str(trim(shown.as_str())),
        Cell::Other(shown) => String::from_str(trim(shown.as_str())),
        Cell::Empty => String::new(),
    }
}

fn column_not_found(name: &str) -> (e: VariantError)
    ensures
        e@ == VariantErrorView::ColumnNotFound(name@),
{
    VariantError::ColumnNotFound(String::from_str(name))
}

impl DataSheet {
    /// Reads the named values out of the rows of the main sheet, whose first
    /// row holds the headers. The columns `Name` and `Default` must be
    /// there, and so must the debug column and the variant column where they
    /// are asked for; headers are compared without regard to case and to
    /// white space around them. `sheets` are the other sheets of the
    /// workbook.
    pub fn from_main_sheet(
        rows: &Vec<Vec<Cell>>,
        sheets: Vec<Sheet>,
        variant: &Option<String>,
        debug: bool,
    ) -> (r: Result<DataSheet, VariantError>)
        ensures
            match r {
                Ok(sheet) => {
                    &&& rows@.len() > 0
                    &&& missing_column(rows@[0]@, wanted(*variant), debug) is None
                    &&& holds_main_sheet(sheet, rows@, wanted(*variant), debug)
                    &&& sheet.sheets == sheets
                },
                Err(e) => if rows@.len() == 0 {
                    e@ == VariantErrorView::RetrievalError("invalid main sheet format."@)
                } else {
                    missing_column(rows@[0]@, wanted(*variant), debug) matches Some(name) && e@
                        == VariantErrorView::ColumnNotFound(name)
                },
            },
    {
        if rows.len() == 0 {
            return Err(
                VariantError::RetrievalError(String::from_str("invalid main sheet format.")),
            );
        }
        let headers = &rows[0];
        let name_index = match find_column(headers, "Name") {
            None => {
                return Err(column_not_found("Name"));
            },
            Some(column) => column,
        };
        let default_index = match find_column(headers, "Default") {
            None => {
                return Err(column_not_found("Default"));
            },
            Some(column) => column,
        };
        let mut names: Vec<String> = Vec::new();
        let mut i: usize = 1;
        while i < rows.len()
            invariant
                1 <= i <= rows@.len(),
                names@.len() == i - 1,
                forall|k: int|
                    0 <= k < names@.len() ==> (#[trigger] names@[k])@ == name_of(
                        cell_at(rows@[k + 1]@, name_index as int),
                    ),
            decreases rows@.len() - i,
        {
            let row = &rows[i];
            let name = if name_index < row.len() {
                name_text(&row[name_index])
            } else {
                String::new()
            };
            names.push(name);
            i = i + 1;
        }
        let default_values = read_cells(rows, default_index);
        let mut debug_values: Option<Vec<Cell>> = None;
        if debug {
            match find_column(headers, "Debug") {
                None => {
                    return Err(column_not_found("Debug"));
                },
                Some(column) => {
                    debug_values = Some(read_cells(rows, column));
                },
            }
        }
        let mut variant_values: Option<Vec<Cell>> = None;
        match variant {
            Some(name) => match find_column(headers, name.as_str()) {
                None => {
                    return Err(column_not_found(name.as_str()));
                },
                Some(column) => {
                    variant_values = Some(read_cells(rows, column));
                },
            },
            None => {},
        }
        Ok(DataSheet { names, default_values, debug_values, variant_values, sheets })
    }
}

/// What was read out of a workbook: the rows of its main sheet, if it has
/// one of that name, and its other sheets.
#[derive(Debug, Clone)]
pub struct Workbook {
    pub main_sheet: Option<Vec<Vec<Cell>>>,
    pub sheets: Vec<Sheet>,
}

/// Whether `r` is what the arguments and the workbook give. Without the
/// name of a workbook there is no data sheet, whatever else is asked for; a
/// workbook that is named must have been read, must have its main sheet, and
/// the main sheet must hold the columns that are asked for.
pub open spec fn data_sheet_of(
    r: Result<Option<DataSheet>, VariantError>,
    args: VariantArgs,
    workbook: Option<Workbook>,
) -> bool {
    match args.xlsx {
        None => r == Ok::<Option<DataSheet>, VariantError>(None),
        Some(path) => match workbook {
            None => r matches Err(e) && e@ == VariantErrorView::FileError(
                "failed to open file: "@ + path@,
            ),
            Some(book) => match book.main_sheet {
                None => r matches Err(e) && e@ == VariantErrorView::MiscError(
                    "Main sheet not found."@,
                ),
                Some(rows) => match r {
                    Ok(found) => {
                        &&& found matches Some(sheet)
                        &&& rows@.len() > 0
                        &&& missing_column(rows@[0]@, wanted(args.variant), args.debug) is None
                        &&& holds_main_sheet(sheet, rows@, wanted(args.variant), args.debug)
                        &&& sheet.sheets == book.sheets
                    },
                    Err(e) => if rows@.len() == 0 {
                        e@ == VariantErrorView::RetrievalError("invalid main sheet format."@)
                    } else {
                        missing_column(rows@[0]@, wanted(args.variant), args.debug) matches Some(
                            name,
                        ) && e@ == VariantErrorView::ColumnNotFound(name)
                    },
                },
            },
        },
    }
}

impl DataSheet {
    /// The data sheet of a build: none where no workbook is named, else the
    /// values of the workbook that was read. `workbook` is `None` where the
    /// named file could not be opened.
    pub fn new(args: &VariantArgs, workbook: Option<Workbook>) -> (r: Result<
        Option<DataSheet>,
        VariantError,
    >)
        ensures
            data_sheet_of(r, *args, workbook),
    {
        let path = match &args.xlsx {
            None => {
                return Ok(None);
            },
            Some(path) => path,
        };
        let book = match workbook {
            None => {
                let mut text = String::from_str("failed to open file: ");
                text.append(path.as_str());
                return Err(VariantError::FileError(text));
            },
            Some(book) => book,
        };
        let rows = match &book.main_sheet {
            None => {
                return Err(VariantError::MiscError(String::from_str("Main sheet not found.")));
            },
            Some(rows) => rows,
        };
        match DataSheet::from_main_sheet(rows, book.sheets, &args.variant, args.debug) {
            Ok(sheet) => Ok(Some(sheet)),
            Err(e) => Err(e),
        }
    }
}

} // verus!
