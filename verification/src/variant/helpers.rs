use super::workbook::{trim, trimmed};
use vstd::prelude::*;
use vstd::string::StringExecFns;

verus! {

/// A name that occurs more than once, with the rows of the sheet in which
/// it occurs; the first row below the header is row 2.
#[derive(Debug, Clone)]
pub struct DuplicateName {
    pub name: String,
    pub rows: Vec<usize>,
}

/// The key of a name: the name without the white space around it.
pub open spec fn key_of(names: Seq<String>, index: int) -> Seq<char> {
    trimmed(names[index]@)
}

/// The rows among the first `upto` names that hold `key`.
pub open spec fn rows_with(names: Seq<String>, key: Seq<char>, upto: int) -> Seq<usize>
    decreases upto,
{
    if upto <= 0 || upto > names.len() {
        Seq::empty()
    } else if key_of(names, upto - 1) == key {
        rows_with(names, key, upto - 1).push((upto + 1) as usize)
    } else {
        rows_with(names, key, upto - 1)
    }
}

/// Whether the name at `index` is not empty and occurs there for the first
/// time.
pub open spec fn is_first(names: Seq<String>, index: int) -> bool {
    key_of(names, index).len() > 0 && forall|j: int|
        0 <= j < index ==> #[trigger] key_of(names, j) != key_of(names, index)
}

/// The names among the first `upto` that occur more than once in the whole
/// list, in the order in which they first occur, each with all its rows.
pub open spec fn duplicates(names: Seq<String>, upto: int) -> Seq<(Seq<char>, Seq<usize>)>
    decreases upto,
{
    if upto <= 0 || upto > names.len() {
        Seq::empty()
    } else {
        let before = duplicates(names, upto - 1);
        let key = key_of(names, upto - 1);
        let rows = rows_with(names, key, names.len() as int);
        if is_first(names, upto - 1) && rows.len() > 1 {
            before.push((key, rows))
        } else {
            before
        }
    }
}

/// The contents of a list of duplicate names.
pub open spec fn duplicates_view(found: Seq<DuplicateName>) -> Seq<(Seq<char>, Seq<usize>)> {
    Seq::new(found.len(), |i: int| (found[i].name@, found[i].rows@))
}

fn same_key(a: &String, b: &String) -> (r: bool)
    ensures
        r == (trimmed(a@) == trimmed(b@)),
{
    let left = String::from_str(trim(a.as_str()));
    let right = String::from_str(trim(b.as_str()));
    left == right
}

/// Finds the names that occur more than once, leaving empty names aside.
pub fn duplicate_names(names: &Vec<String>) -> (found: Vec<DuplicateName>)
    requires
        names@.len() + 2 <= usize::MAX,
    ensures
        duplicates_view(found@) == duplicates(names@, names@.len() as int),
{
    let mut found: Vec<DuplicateName> = Vec::new();
    let n = names.len();
    let mut i: usize = 0;
    assert(duplicates_view(found@) =~= duplicates(names@, 0));
    while i < n
        invariant
            i <= n,
            n == names@.len(),
            n + 2 <= usize::MAX,
            duplicates_view(found@) == duplicates(names@, i as int),
        decreases n - i,
    {
        let key = String::from_str(trim(names[i].as_str()));
        let mut first = key.as_str().unicode_len() != 0;
        let mut j: usize = 0;
        while first && j < i
            invariant
                j <= i < n,
                n == names@.len(),
                key@ == key_of(names@, i as int),
                first ==> key@.len() > 0 && forall|k: int|
                    0 <= k < j ==> #[trigger] key_of(names@, k) != key_of(names@, i as int),
                !first ==> !is_first(names@, i as int),
            decreases
                    i - j + if first {
                        1int
                    } else {
                        0int
                    },
        {
            if same_key(&names[j], &names[i]) {
                first = false;
                assert(key_of(names@, j as int) == key_of(names@, i as int));
            } else {
                j = j + 1;
            }
        }
        if first {
            let mut rows: Vec<usize> = Vec::new();
            let mut k: usize = 0;
            assert(rows@ =~= rows_with(names@, key@, 0));
            while k < n
                invariant
                    k <= n,
                    i < n,
                    n == names@.len(),
                    n + 2 <= usize::MAX,
                    key@ == key_of(names@, i as int),
                    rows@ == rows_with(names@, key@, k as int),
                decreases n - k,
            {
                if same_key(&names[k], &names[i]) {
                    rows.push(k + 2);
                }
                k = k + 1;
            }
            if rows.len() > 1 {
                let ghost before = duplicates_view(found@);
                found.push(DuplicateName { name: key, rows });
                assert(duplicates_view(found@) =~= before.push((key@, rows@)));
            }
        }
        i = i + 1;
    }
    found
}

} // verus!
