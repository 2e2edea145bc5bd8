use vstd::prelude::*;

verus! {

/// What went wrong while reading a value out of the data sheet.
#[derive(Debug)]
pub enum VariantError {
    FileError(String),
    ColumnNotFound(String),
    RetrievalError(String),
    MiscError(String),
    WhileRetrieving { name: String, source: Box<VariantError> },
}

/// The mathematical content of a [`VariantError`].
pub enum VariantErrorView {
    FileError(Seq<char>),
    ColumnNotFound(Seq<char>),
    RetrievalError(Seq<char>),
    MiscError(Seq<char>),
    WhileRetrieving { name: Seq<char>, source: Box<VariantErrorView> },
}

impl VariantError {
    /// The error with its texts as sequences of characters.
    pub open spec fn content(&self) -> VariantErrorView
        decreases self,
    {
        match self {
            VariantError::FileError(m) => VariantErrorView::FileError(m@),
            VariantError::ColumnNotFound(m) => VariantErrorView::ColumnNotFound(m@),
            VariantError::RetrievalError(m) => VariantErrorView::RetrievalError(m@),
            VariantError::MiscError(m) => VariantErrorView::MiscError(m@),
            VariantError::WhileRetrieving { name, source } => VariantErrorView::WhileRetrieving {
                name: name@,
                source: Box::new(source.content()),
            },
        }
    }
}

impl View for VariantError {
    type V = VariantErrorView;

    open spec fn view(&self) -> VariantErrorView {
        self.content()
    }
}

impl VariantErrorView {
    /// The text that the error displays.
    pub open spec fn message(self) -> Seq<char>
        decreases self,
    {
        match self {
            VariantErrorView::FileError(m) => "File error: "@ + m + "."@,
            VariantErrorView::ColumnNotFound(m) => "Excel column not found: "@ + m + "."@,
            VariantErrorView::RetrievalError(m) => "Excel retrieval error: "@ + m + "."@,
            VariantErrorView::MiscError(m) => "Misc error: "@ + m + "."@,
            VariantErrorView::WhileRetrieving { name, source } => "While retrieving '"@ + name
                + "': "@ + source.message(),
        }
    }
}

impl VariantError {
    /// The text that the error displays.
    pub fn message(&self) -> (text: String)
        ensures
            text@ == self@.message(),
        decreases self,
    {
        match self {
            VariantError::FileError(m) => String::from_str("File error: ").concat(
                m.as_str(),
            ).concat("."),
            VariantError::ColumnNotFound(m) => String::from_str("Excel column not found: ").concat(
                m.as_str(),
            ).concat("."),
            VariantError::RetrievalError(m) => String::from_str("Excel retrieval error: ").concat(
                m.as_str(),
            ).concat("."),
            VariantError::MiscError(m) => String::from_str("Misc error: ").concat(
                m.as_str(),
            ).concat("."),
            VariantError::WhileRetrieving { name, source } => {
                let inner = source.message();
                String::from_str("While retrieving '").concat(name.as_str()).concat("': ").concat(
                    inner.as_str(),
                )
            },
        }
    }
}

} // verus!
