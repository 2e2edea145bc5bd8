use nvmbuilder::layout::value::{DataValue, ValueSource};
use nvmbuilder::variant::errors::VariantError;
use nvmbuilder::variant::args::VariantArgs;
use nvmbuilder::variant::helpers::duplicate_names;
use nvmbuilder::variant::workbook::{eq_ignoring_case, find_column, trim, Workbook};
use nvmbuilder::variant::{Cell, DataSheet, Sheet};

fn text(s: &str) -> Cell {
    Cell::Text(s.to_string())
}

fn float(v: f64) -> Cell {
    Cell::Float(v.to_bits(), v.to_string())
}

fn main_rows() -> Vec<Vec<Cell>> {
    vec![
        vec![text(" name "), text("Default"), text("DEBUG"), text("VarA"), text("VarB")],
        vec![text("Gain"), Cell::Int(10), Cell::Int(11), Cell::Empty, Cell::Int(13)],
        vec![text(" Offset "), float(1.5), Cell::Empty, text("  "), Cell::Empty],
        vec![text("Label"), text("hello"), Cell::Empty, Cell::Empty, Cell::Empty],
        vec![text("Curve"), text("#Curve"), Cell::Empty, Cell::Empty, Cell::Empty],
        vec![text("Table"), text("#Table"), Cell::Empty, Cell::Empty, Cell::Empty],
        vec![text("Flag"), Cell::Other("true".to_string()), Cell::Empty, Cell::Empty, Cell::Empty],
        vec![text("Nothing"), Cell::Empty, Cell::Empty, Cell::Empty],
        vec![Cell::Int(42), Cell::Int(7)],
        vec![text("Lost"), text("#Missing")],
        vec![text("Bare"), text("#Bare")],
        vec![text("Gain"), Cell::Int(99)],
    ]
}

fn sheets() -> Vec<Sheet> {
    vec![
        Sheet {
            name: "Curve".to_string(),
            rows: vec![
                vec![text("values")],
                vec![Cell::Int(1)],
                vec![float(2.5)],
                vec![text("x")],
                vec![Cell::Empty],
                vec![Cell::Int(5)],
            ],
        },
        Sheet {
            name: "Table".to_string(),
            rows: vec![
                vec![text("a"), text("b"), text(" "), text("d")],
                vec![Cell::Int(1), Cell::Int(2), Cell::Int(100)],
                vec![Cell::Int(3), float(4.0), Cell::Empty],
                vec![Cell::Int(5), Cell::Empty, Cell::Empty],
                vec![Cell::Int(7), Cell::Int(8), Cell::Empty],
            ],
        },
        Sheet { name: "Bare".to_string(), rows: vec![] },
    ]
}

fn sheet(variant: Option<&str>, debug: bool) -> DataSheet {
    DataSheet::from_main_sheet(&main_rows(), sheets(), &variant.map(|v| v.to_string()), debug)
        .expect("main sheet")
}

fn inner(e: VariantError, name: &str) -> VariantError {
    match e {
        VariantError::WhileRetrieving { name: n, source } => {
            assert_eq!(n, name);
            *source
        }
        other => panic!("unexpected {:?}", other),
    }
}

fn retrieval(e: VariantError, name: &str) -> String {
    match inner(e, name) {
        VariantError::RetrievalError(m) => m,
        other => panic!("unexpected {:?}", other),
    }
}

#[test]
fn main_sheet_columns() {
    let ds = sheet(None, false);
    assert_eq!(
        ds.names,
        vec!["Gain", "Offset", "Label", "Curve", "Table", "Flag", "Nothing", "42", "Lost", "Bare", "Gain"]
    );
    assert_eq!(ds.default_values.len(), 11);
    assert!(matches!(ds.default_values[0], Cell::Int(10)));
    assert!(matches!(ds.default_values[10], Cell::Int(99)));
    assert!(ds.debug_values.is_none());
    assert!(ds.variant_values.is_none());
    assert_eq!(ds.sheets.len(), 3);

    let ds = sheet(Some("vara"), true);
    let debug = ds.debug_values.as_ref().unwrap();
    assert!(matches!(debug[0], Cell::Int(11)));
    // a row that is too short has an empty cell
    assert!(matches!(debug[8], Cell::Empty));
    assert!(matches!(ds.variant_values.as_ref().unwrap()[1], Cell::Text(_)));
}

#[test]
fn main_sheet_refusals() {
    let missing = |rows: Vec<Vec<Cell>>, variant: Option<&str>, debug: bool| -> String {
        match DataSheet::from_main_sheet(&rows, vec![], &variant.map(|v| v.to_string()), debug) {
            Err(VariantError::ColumnNotFound(name)) => name,
            other => panic!("unexpected {:?}", other),
        }
    };
    match DataSheet::from_main_sheet(&vec![], vec![], &None, false) {
        Err(VariantError::RetrievalError(m)) => assert_eq!(m, "invalid main sheet format."),
        other => panic!("unexpected {:?}", other),
    }
    assert_eq!(missing(vec![vec![text("Default")]], None, false), "Name");
    assert_eq!(missing(vec![vec![text("Name"), Cell::Int(1)]], Some("X"), true), "Default");
    assert_eq!(missing(vec![vec![text("Name"), text("Default")]], Some("X"), true), "Debug");
    assert_eq!(
        missing(vec![vec![text("Name"), text("Default"), text("Debug")]], Some("X"), true),
        "X"
    );
    assert_eq!(
        VariantError::ColumnNotFound("X".to_string()).message(),
        "Excel column not found: X."
    );
}

#[test]
fn single_values_come_from_the_first_filled_column() {
    let plain = sheet(None, false);
    // the first row called Gain counts
    assert!(matches!(plain.retrieve_single_value("Gain"), Ok(DataValue::I64(10))));
    match plain.retrieve_single_value("Offset") {
        Ok(DataValue::F64(bits, _)) => assert_eq!(f64::from_bits(bits), 1.5),
        other => panic!("unexpected {:?}", other),
    }
    assert!(matches!(sheet(Some("VarB"), false).retrieve_single_value("Gain"), Ok(DataValue::I64(13))));
    // an empty variant cell falls back to the default
    assert!(matches!(sheet(Some("VarA"), false).retrieve_single_value("Gain"), Ok(DataValue::I64(10))));
    // a blank text counts as empty
    assert!(matches!(sheet(Some("VarA"), false).retrieve_single_value("Offset"), Ok(DataValue::F64(_, _))));
    // debug goes before the variant
    assert!(matches!(sheet(Some("VarB"), true).retrieve_single_value("Gain"), Ok(DataValue::I64(11))));
    assert!(matches!(plain.retrieve_single_value("42"), Ok(DataValue::I64(7))));

    assert_eq!(
        retrieval(plain.retrieve_single_value("gain").unwrap_err(), "gain"),
        "index not found in data sheet"
    );
    assert_eq!(
        retrieval(plain.retrieve_single_value("Nothing").unwrap_err(), "Nothing"),
        "data not found in any variant column"
    );
    assert_eq!(
        retrieval(plain.retrieve_single_value("Label").unwrap_err(), "Label"),
        "Found non-numeric single value"
    );
    assert_eq!(
        retrieval(plain.retrieve_single_value("Flag").unwrap_err(), "Flag"),
        "Found non-numeric single value"
    );
    assert_eq!(
        plain.retrieve_single_value("Flag").unwrap_err().message(),
        "While retrieving 'Flag': Excel retrieval error: Found non-numeric single value."
    );
}

#[test]
fn arrays_and_strings() {
    let ds = sheet(None, false);
    match ds.retrieve_1d_array_or_string("Label").unwrap() {
        ValueSource::Single(DataValue::Str(s)) => assert_eq!(s, "hello"),
        other => panic!("unexpected {:?}", other),
    }
    match ds.retrieve_1d_array_or_string("Curve").unwrap() {
        ValueSource::Array(values) => {
            assert_eq!(values.len(), 3);
            assert!(matches!(values[0], DataValue::I64(1)));
            assert!(matches!(values[1], DataValue::F64(_, _)));
            assert!(matches!(&values[2], DataValue::Str(s) if s == "x"));
        }
        other => panic!("unexpected {:?}", other),
    }
    match ds.retrieve_1d_array_or_string("Bare").unwrap() {
        ValueSource::Array(values) => assert!(values.is_empty()),
        other => panic!("unexpected {:?}", other),
    }
    assert_eq!(
        retrieval(ds.retrieve_1d_array_or_string("Gain").unwrap_err(), "Gain"),
        "Expected string value for 1D array or string"
    );
    assert_eq!(
        retrieval(ds.retrieve_1d_array_or_string("Lost").unwrap_err(), "Lost"),
        "Sheet not found: 'Missing'. Available sheets: Curve, Table, Bare"
    );
    let mut odd = sheet(None, false);
    odd.sheets[0].rows[2] = vec![Cell::Other("#N/A".to_string())];
    assert_eq!(
        retrieval(odd.retrieve_1d_array_or_string("Curve").unwrap_err(), "Curve"),
        "Unsupported data type in 1D array"
    );
}

#[test]
fn matrices() {
    let ds = sheet(None, false);
    let rows = ds.retrieve_2d_array("Table").unwrap();
    // two columns; the third row has a gap and ends the matrix
    assert_eq!(rows.len(), 2);
    assert!(matches!(rows[0][..], [DataValue::I64(1), DataValue::I64(2)]));
    assert!(matches!(rows[1][..], [DataValue::I64(3), DataValue::F64(_, _)]));

    assert_eq!(
        retrieval(ds.retrieve_2d_array("Gain").unwrap_err(), "Gain"),
        "Expected string value for 2D array"
    );
    assert_eq!(
        retrieval(ds.retrieve_2d_array("Label").unwrap_err(), "Label"),
        "2D array reference must start with '#' prefix, got: hello"
    );
    assert_eq!(
        retrieval(ds.retrieve_2d_array("Bare").unwrap_err(), "Bare"),
        "No headers found in 2D array"
    );
    assert_eq!(
        retrieval(ds.retrieve_2d_array("Lost").unwrap_err(), "Lost"),
        "Sheet not found: 'Missing'. Available sheets: Curve, Table, Bare"
    );
    let mut odd = sheet(None, false);
    odd.sheets[1].rows[0][0] = Cell::Empty;
    assert_eq!(
        retrieval(odd.retrieve_2d_array("Table").unwrap_err(), "Table"),
        "Detected zero width 2D array"
    );
    let mut odd = sheet(None, false);
    odd.sheets[1].rows[2][0] = text("x");
    assert_eq!(
        retrieval(odd.retrieve_2d_array("Table").unwrap_err(), "Table"),
        "Unsupported data type in 2D array"
    );
    // a cell behind a gap is not looked at
    let mut odd = sheet(None, false);
    odd.sheets[1].rows[3] = vec![Cell::Int(5), Cell::Empty, text("x")];
    assert_eq!(odd.retrieve_2d_array("Table").unwrap().len(), 2);
    // the last sheet of a name counts
    let mut twice = sheet(None, false);
    twice.sheets.push(Sheet {
        name: "Table".to_string(),
        rows: vec![vec![text("only")], vec![Cell::Int(9)]],
    });
    let rows = twice.retrieve_2d_array("Table").unwrap();
    assert_eq!(rows.len(), 1);
    assert!(matches!(rows[0][..], [DataValue::I64(9)]));
}

#[test]
fn text_helpers() {
    assert_eq!(trim("  a b\t\n"), "a b");
    assert_eq!(trim("\u{a0}\u{3000}x\u{2009}"), "x");
    assert_eq!(trim(" \t "), "");
    assert_eq!(trim(""), "");
    assert_eq!(trim("x"), "x");
    for s in ["", " ", " a", "a ", " a b ", "\u{85}é\u{1680}", "\u{200b}x", "\u{2028}\u{2029}z\u{205f}\u{202f}"] {
        assert_eq!(trim(s), s.trim(), "{s:?}");
    }
    assert!(eq_ignoring_case("NaMe", "name"));
    assert!(eq_ignoring_case("", ""));
    assert!(!eq_ignoring_case("name", "names"));
    assert!(!eq_ignoring_case("É", "é"));
    assert!(!eq_ignoring_case("[", "{"));
    assert!(!eq_ignoring_case("@", "`"));
    assert_eq!(find_column(&vec![Cell::Int(1), text("x"), text(" X ")], "x"), Some(1));
    assert_eq!(find_column(&vec![Cell::Int(1), text("y")], "x"), None);
}

#[test]
fn duplicate_names_are_found() {
    let names: Vec<String> =
        ["b", "a", " b ", "", "c", "a", "", "b", "d"].iter().map(|s| s.to_string()).collect();
    let found = duplicate_names(&names);
    assert_eq!(found.len(), 2);
    assert_eq!(found[0].name, "b");
    assert_eq!(found[0].rows, vec![2, 4, 9]);
    assert_eq!(found[1].name, "a");
    assert_eq!(found[1].rows, vec![3, 7]);
    assert!(duplicate_names(&vec![]).is_empty());
    assert!(duplicate_names(&vec!["x".to_string(), "".to_string(), " ".to_string()]).is_empty());
}

#[test]
fn test_warning_validation() {
    // Test that DataSheet::new returns None when no xlsx is provided
    let args_no_excel = VariantArgs {
        xlsx: None,
        variant: None,
        debug: false,
        main_sheet: "Main".to_string(),
    };

    let result = DataSheet::new(&args_no_excel, None).expect("should return Ok(None)");
    assert!(
        result.is_none(),
        "DataSheet should be None when no xlsx provided"
    );

    // Test with variant flag (would produce warning in main.rs)
    let args_variant_no_excel = VariantArgs {
        xlsx: None,
        variant: Some("VarA".to_string()),
        debug: false,
        main_sheet: "Main".to_string(),
    };

    let result = DataSheet::new(&args_variant_no_excel, None).expect("should return Ok(None)");
    assert!(
        result.is_none(),
        "DataSheet should be None when no xlsx provided, even with variant flag"
    );

    // Test with debug flag (would produce warning in main.rs)
    let args_debug_no_excel = VariantArgs {
        xlsx: None,
        variant: None,
        debug: true,
        main_sheet: "Main".to_string(),
    };

    let result = DataSheet::new(&args_debug_no_excel, None).expect("should return Ok(None)");
    assert!(
        result.is_none(),
        "DataSheet should be None when no xlsx provided, even with debug flag"
    );
}

#[test]
fn data_sheet_of_a_workbook() {
    let args = VariantArgs {
        xlsx: Some("data.xlsx".to_string()),
        variant: Some("VarB".to_string()),
        debug: false,
        main_sheet: "Main".to_string(),
    };
    match DataSheet::new(&args, None) {
        Err(VariantError::FileError(m)) => assert_eq!(m, "failed to open file: data.xlsx"),
        other => panic!("unexpected {:?}", other),
    }
    match DataSheet::new(&args, Some(Workbook { main_sheet: None, sheets: sheets() })) {
        Err(VariantError::MiscError(m)) => assert_eq!(m, "Main sheet not found."),
        other => panic!("unexpected {:?}", other),
    }
    let ds = DataSheet::new(&args, Some(Workbook { main_sheet: Some(main_rows()), sheets: sheets() }))
        .unwrap()
        .unwrap();
    assert!(matches!(ds.retrieve_single_value("Gain"), Ok(DataValue::I64(13))));
    assert_eq!(ds.sheets.len(), 3);
    // a workbook that was read is not looked at where none is named
    let no_name = VariantArgs { xlsx: None, ..args };
    assert!(DataSheet::new(&no_name, Some(Workbook { main_sheet: None, sheets: vec![] }))
        .unwrap()
        .is_none());
}

#[test]
fn every_cell_of_the_name_column_gives_a_name() {
    let rows = vec![
        vec![text("Name"), text("Default")],
        vec![float(2.5), Cell::Int(1)],
        vec![Cell::Other(" true ".to_string()), Cell::Int(2)],
        vec![Cell::Empty, Cell::Int(3)],
        vec![Cell::Int(-7), Cell::Int(4)],
        vec![text("  Gain\t"), Cell::Int(5)],
    ];
    let ds = DataSheet::from_main_sheet(&rows, vec![], &None, false).expect("main sheet");
    assert_eq!(ds.names, vec!["2.5", "true", "", "-7", "Gain"]);
    assert!(matches!(ds.retrieve_single_value("true"), Ok(DataValue::I64(2))));
    assert!(matches!(ds.retrieve_single_value("2.5"), Ok(DataValue::I64(1))));
}
