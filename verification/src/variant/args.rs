use vstd::prelude::*;

verus! {

/// Where the named values come from and which columns are read.
#[derive(Debug, Clone)]
pub struct VariantArgs {
    /// Path to the workbook, if there is one.
    pub xlsx: Option<String>,
    /// Name of the sheet that lists the values.
    pub main_sheet: String,
    /// The variant column to use, if any.
    pub variant: Option<String>,
    /// Whether the debug column is used where it is filled.
    pub debug: bool,
}

} // verus!
