use crate::variant::errors::{VariantError, VariantErrorView};
use vstd::prelude::*;

verus! {

/// What went wrong while reading a layout or laying out a block.
#[derive(Debug)]
pub enum LayoutError {
    FileError(String),
    BlockNotFound(String),
    DataValueExportFailed(String),
    InvalidBlockArgument(String),
    NoBlocksProvided,
    MissingDataSheet(String),
    MiscError(String),
    InField { field: String, source: Box<LayoutError> },
    Variant(VariantError),
}

/// The mathematical content of a [`LayoutError`].
pub enum LayoutErrorView {
    FileError(Seq<char>),
    BlockNotFound(Seq<char>),
    DataValueExportFailed(Seq<char>),
    InvalidBlockArgument(Seq<char>),
    NoBlocksProvided,
    MissingDataSheet(Seq<char>),
    MiscError(Seq<char>),
    InField { field: Seq<char>, source: Box<LayoutErrorView> },
    Variant(VariantErrorView),
}

impl LayoutError {
    /// The error with its texts as sequences of characters.
    pub open spec fn content(&self) -> LayoutErrorView
        decreases self,
    {
        match self {
            LayoutError::FileError(m) => LayoutErrorView::FileError(m@),
            LayoutError::BlockNotFound(m) => LayoutErrorView::BlockNotFound(m@),
            LayoutError::DataValueExportFailed(m) => LayoutErrorView::DataValueExportFailed(m@),
            LayoutError::InvalidBlockArgument(m) => LayoutErrorView::InvalidBlockArgument(m@),
            LayoutError::NoBlocksProvided => LayoutErrorView::NoBlocksProvided,
            LayoutError::MissingDataSheet(m) => LayoutErrorView::MissingDataSheet(m@),
            LayoutError::MiscError(m) => LayoutErrorView::MiscError(m@),
            LayoutError::InField { field, source } => LayoutErrorView::InField {
                field: field@,
                source: Box::new(source.content()),
            },
            LayoutError::Variant(e) => LayoutErrorView::Variant(e@),
        }
    }
}

impl View for LayoutError {
    type V = LayoutErrorView;

    open spec fn view(&self) -> LayoutErrorView {
        self.content()
    }
}

impl LayoutErrorView {
    /// The text that the error displays.
    pub open spec fn message(self) -> Seq<char>
        decreases self,
    {
        match self {
            LayoutErrorView::FileError(m) => "File error: "@ + m + "."@,
            LayoutErrorView::BlockNotFound(m) => "Block not found: "@ + m + "."@,
            LayoutErrorView::DataValueExportFailed(m) => "Data value export failed: "@ + m + "."@,
            LayoutErrorView::InvalidBlockArgument(m) => "Invalid block argument: "@ + m + "."@,
            LayoutErrorView::NoBlocksProvided => "No blocks provided."@,
            LayoutErrorView::MissingDataSheet(m) => "Missing datasheet: "@ + m,
            LayoutErrorView::MiscError(m) => "Misc error: "@ + m + "."@,
            LayoutErrorView::InField { field, source } => "In field '"@ + field + "': "@
                + source.message(),
            LayoutErrorView::Variant(e) => e.message(),
        }
    }
}

impl LayoutError {
    /// The text that the error displays.
    pub fn message(&self) -> (text: String)
        ensures
            text@ == self@.message(),
        decreases self,
    {
        match self {
            LayoutError::FileError(m) => String::from_str("File error: ").concat(
                m.as_str(),
            ).concat("."),
            LayoutError::BlockNotFound(m) => String::from_str("Block not found: ").concat(
                m.as_str(),
            ).concat("."),
            LayoutError::DataValueExportFailed(m) => String::from_str(
                "Data value export failed: ",
            ).concat(m.as_str()).concat("."),
            LayoutError::InvalidBlockArgument(m) => String::from_str(
                "Invalid block argument: ",
            ).concat(m.as_str()).concat("."),
            LayoutError::NoBlocksProvided => String::from_str("No blocks provided."),
            LayoutError::MissingDataSheet(m) => String::from_str("Missing datasheet: ").concat(
                m.as_str(),
            ),
            LayoutError::MiscError(m) => String::from_str("Misc error: ").concat(
                m.as_str(),
            ).concat("."),
            LayoutError::InField { field, source } => {
                let inner = source.message();
                String::from_str("In field '").concat(field.as_str()).concat("': ").concat(
                    inner.as_str(),
                )
            },
            LayoutError::Variant(e) => e.message(),
        }
    }
}

} // verus!
