use crate::layout::errors::{LayoutError, LayoutErrorView};
use crate::output::errors::{OutputError, OutputErrorView};
use crate::variant::errors::{VariantError, VariantErrorView};
use vstd::prelude::*;
use vstd::string::StringExecFns;

verus! {

/// Any error of a build, with the block in which it came up where that is
/// known.
#[derive(Debug)]
pub enum NvmError {
    Layout(LayoutError),
    Variant(VariantError),
    Output(OutputError),
    InBlock { block_name: String, layout_file: String, source: Box<NvmError> },
}

/// The mathematical content of an [`NvmError`].
pub enum NvmErrorView {
    Layout(LayoutErrorView),
    Variant(VariantErrorView),
    Output(OutputErrorView),
    InBlock { block_name: Seq<char>, layout_file: Seq<char>, source: Box<NvmErrorView> },
}

impl NvmError {
    /// The error with its texts as sequences of characters.
    pub open spec fn content(&self) -> NvmErrorView
        decreases self,
    {
        match self {
            NvmError::Layout(e) => NvmErrorView::Layout(e@),
            NvmError::Variant(e) => NvmErrorView::Variant(e@),
            NvmError::Output(e) => NvmErrorView::Output(e@),
            NvmError::InBlock { block_name, layout_file, source } => NvmErrorView::InBlock {
                block_name: block_name@,
                layout_file: layout_file@,
                source: Box::new(source.content()),
            },
        }
    }
}

impl View for NvmError {
    type V = NvmErrorView;

    open spec fn view(&self) -> NvmErrorView {
        self.content()
    }
}

impl NvmErrorView {
    /// The text that the error displays.
    pub open spec fn message(self) -> Seq<char>
        decreases self,
    {
        match self {
            NvmErrorView::Layout(e) => e.message(),
            NvmErrorView::Variant(e) => e.message(),
            NvmErrorView::Output(e) => e.message(),
            NvmErrorView::InBlock { block_name, layout_file, source } => "While building block '"@
                + block_name + "' from '"@ + layout_file + "': "@ + source.message(),
        }
    }
}

impl NvmError {
    /// The text that the error displays.
    pub fn message(&self) -> (text: String)
        ensures
            text@ == self@.message(),
        decreases self,
    {
        match self {
            NvmError::Layout(e) => e.message(),
            NvmError::Variant(e) => e.message(),
            NvmError::Output(e) => e.message(),
            NvmError::InBlock { block_name, layout_file, source } => {
                let inner = source.message();
                String::from_str("While building block '").concat(block_name.as_str()).concat(
                    "' from '",
                ).concat(layout_file.as_str()).concat("': ").concat(inner.as_str())
            },
        }
    }

    /// `error` with the block in which it came up.
    pub fn in_block(block_name: &String, layout_file: &String, error: NvmError) -> (e: NvmError)
        ensures
            e@ == (NvmErrorView::InBlock {
                block_name: block_name@,
                layout_file: layout_file@,
                source: Box::new(error@),
            }),
    {
        NvmError::InBlock {
            block_name: block_name.clone(),
            layout_file: layout_file.clone(),
            source: Box::new(error),
        }
    }
}

} // verus!
