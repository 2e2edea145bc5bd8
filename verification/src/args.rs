use crate::layout::args::LayoutArgs;
use crate::output::args::OutputArgs;
use crate::variant::args::VariantArgs;
use vstd::prelude::*;

verus! {

/// Everything that a build is told: the blocks, where the named values come
/// from, and how the output is written.
#[derive(Debug)]
pub struct Args {
    pub layout: LayoutArgs,
    pub variant: VariantArgs,
    pub output: OutputArgs,
}

} // verus!
