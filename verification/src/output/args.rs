use vstd::prelude::*;

verus! {

/// The text format of the output.
#[derive(Copy, Clone, Debug, PartialEq, Eq, Structural)]
pub enum OutputFormat {
    /// Intel HEX.
    Hex,
    /// Motorola S-record.
    Mot,
}

/// Where and how the output is written.
#[derive(Debug, Clone)]
pub struct OutputArgs {
    /// Output directory.
    pub out: String,
    /// Prefix of every file name, if not empty.
    pub prefix: String,
    /// Suffix of every file name, if not empty.
    pub suffix: String,
    /// Number of data bytes per record.
    pub record_width: u16,
    pub format: OutputFormat,
    /// One file for all blocks instead of one per block.
    pub combined: bool,
    /// Print the detailed statistics.
    pub stats: bool,
    /// Print nothing.
    pub quiet: bool,
}

} // verus!
