use vstd::prelude::*;
use vstd::string::StringExecFns;

verus! {

/// What went wrong while a block was assembled or written out.
#[derive(Debug)]
pub enum OutputError {
    FileError(String),
    HexOutputError(String),
    BlockOverlapError(String),
}

/// The mathematical content of an [`OutputError`].
pub enum OutputErrorView {
    FileError(Seq<char>),
    HexOutputError(Seq<char>),
    BlockOverlapError(Seq<char>),
}

impl View for OutputError {
    type V = OutputErrorView;

    open spec fn view(&self) -> OutputErrorView {
        match self {
            OutputError::FileError(m) => OutputErrorView::FileError(m@),
            OutputError::HexOutputError(m) => OutputErrorView::HexOutputError(m@),
            OutputError::BlockOverlapError(m) => OutputErrorView::BlockOverlapError(m@),
        }
    }
}

impl OutputErrorView {
    /// The text that the error displays.
    pub open spec fn message(self) -> Seq<char> {
        match self {
            OutputErrorView::FileError(m) => "File error: "@ + m + "."@,
            OutputErrorView::HexOutputError(m) => "Hex output error: "@ + m + "."@,
            OutputErrorView::BlockOverlapError(m) => "Block memory overlap detected: "@ + m,
        }
    }
}

impl OutputError {
    /// The text that the error displays.
    pub fn message(&self) -> (text: String)
        ensures
            text@ == self@.message(),
    {
        match self {
            OutputError::FileError(m) => String::from_str("File error: ").concat(
                m.as_str(),
            ).concat("."),
            OutputError::HexOutputError(m) => String::from_str("Hex output error: ").concat(
                m.as_str(),
            ).concat("."),
            OutputError::BlockOverlapError(m) => String::from_str(
                "Block memory overlap detected: ",
            ).concat(m.as_str()),
        }
    }
}

} // verus!
