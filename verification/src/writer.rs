use crate::output::args::{OutputArgs, OutputFormat};
use vstd::prelude::*;
use vstd::string::{StrSliceExecFns, StringExecFns};

verus! {

/// The extension of the files of a format.
pub open spec fn extension(format: OutputFormat) -> Seq<char> {
    match format {
        OutputFormat::Hex => "hex"@,
        OutputFormat::Mot => "mot"@,
    }
}

/// The name of the output file of a block: prefix, block name and suffix
/// with underscores between them, where prefix and suffix are not empty, and
/// the extension of the format.
pub open spec fn file_name(
    prefix: Seq<char>,
    block_name: Seq<char>,
    suffix: Seq<char>,
    format: OutputFormat,
) -> Seq<char> {
    let head = if prefix.len() == 0 {
        block_name
    } else {
        prefix + "_"@ + block_name
    };
    let stem = if suffix.len() == 0 {
        head
    } else {
        head + "_"@ + suffix
    };
    stem + "."@ + extension(format)
}

/// The name of the file that the output of a block is written to.
pub fn output_file_name(args: &OutputArgs, block_name: &str) -> (name: String)
    ensures
        name@ == file_name(args.prefix@, block_name@, args.suffix@, args.format),
{
    let mut name = String::new();
    if args.prefix.as_str().unicode_len() != 0 {
        name.append(args.prefix.as_str());
        name.append("_");
    }
    name.append(block_name);
    if args.suffix.as_str().unicode_len() != 0 {
        name.append("_");
        name.append(args.suffix.as_str());
    }
    name.append(".");
    match args.format {
        OutputFormat::Hex => name.append("hex"),
        OutputFormat::Mot => name.append("mot"),
    }
    assert(name@ =~= file_name(args.prefix@, block_name@, args.suffix@, args.format));
    name
}

} // verus!
