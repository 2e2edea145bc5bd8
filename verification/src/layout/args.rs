use super::errors::{LayoutError, LayoutErrorView};
use vstd::prelude::*;
use vstd::string::{StrSliceExecFns, StringExecFns};

verus! {

/// A block to build: its name and the layout file that describes it.
#[derive(Debug, Clone)]
pub struct BlockNames {
    pub name: String,
    pub file: String,
}

/// The blocks to build and how strictly values are converted.
#[derive(Debug)]
pub struct LayoutArgs {
    pub blocks: Vec<BlockNames>,
    /// Refuse every conversion that would lose something.
    pub strict: bool,
}

/// The number of `@` among the first `upto` characters.
pub open spec fn count_at_signs(text: Seq<char>, upto: int) -> nat
    decreases upto,
{
    if upto <= 0 || upto > text.len() {
        0
    } else if text[upto - 1] == '@' {
        count_at_signs(text, upto - 1) + 1
    } else {
        count_at_signs(text, upto - 1)
    }
}

/// The name and the file of an argument of the form `name@file`, which
/// holds exactly one `@`.
pub open spec fn block_names(text: Seq<char>) -> Result<(Seq<char>, Seq<char>), LayoutErrorView> {
    if count_at_signs(text, text.len() as int) == 1 {
        let at = text.index_of('@');
        Ok((text.subrange(0, at), text.subrange(at + 1, text.len() as int)))
    } else {
        Err(LayoutErrorView::InvalidBlockArgument("Failed to unpack block "@ + text))
    }
}

/// Splits an argument of the form `name@file`.
pub fn parse_block_arg(block: &str) -> (r: Result<BlockNames, LayoutError>)
    ensures
        match r {
            Ok(names) => block_names(block@) == Ok::<(Seq<char>, Seq<char>), LayoutErrorView>(
                (names.name@, names.file@),
            ),
            Err(e) => block_names(block@) == Err::<(Seq<char>, Seq<char>), LayoutErrorView>(e@),
        },
{
    let n = block.unicode_len();
    let mut count: usize = 0;
    let mut first: usize = 0;
    let mut i: usize = 0;
    while i < n
        invariant
            i <= n,
            n == block@.len(),
            count == count_at_signs(block@, i as int),
            count <= i,
            count > 0 ==> first < i && block@[first as int] == '@',
            forall|k: int| 0 <= k < i && k < first ==> block@[k] != '@',
            count == 0 ==> forall|k: int| 0 <= k < i ==> block@[k] != '@',
            count == 1 ==> forall|k: int| 0 <= k < i && k != first ==> block@[k] != '@',
        decreases n - i,
    {
        if block.get_char(i) == '@' {
            if count == 0 {
                first = i;
            }
            count = count + 1;
        }
        i = i + 1;
    }
    if count != 1 {
        let mut text = String::from_str("Failed to unpack block ");
        text.append(block);
        Err(LayoutError::InvalidBlockArgument(text))
    } else {
        proof {
            assert(block@[first as int] == '@');
            let at = block@.index_of('@');
            assert(0 <= at < block@.len() && block@[at] == '@');
            assert(at == first);
        }
        Ok(
            BlockNames {
                name: String::from_str(block.substring_char(0, first)),
                file: String::from_str(block.substring_char(first + 1, n)),
            },
        )
    }
}

} // verus!
