//! Splitting a path into directory and file-name parts. Both `/` and `\` are
//! accepted as separators, so Windows-style paths behave the same way.

use vstd::prelude::*;
use vstd::string::StrSliceExecFns;
use crate::strutil::last_index_of_either;
use crate::strutil::substr_string;

verus! {

pub open spec fn is_sep(c: char) -> bool {
    c == '/' || c == '\\'
}

/// The file-name part of a path: everything after the last separator.
pub open spec fn spec_extract_file_name(path: Seq<char>) -> Seq<char>
    decreases path.len(),
{
    if path.len() == 0 {
        path
    } else if is_sep(path.last()) {
        Seq::<char>::empty()
    } else {
        spec_extract_file_name(path.drop_last()).push(path.last())
    }
}

/// A path without separators is its own file name.
pub proof fn lemma_extract_no_sep(path: Seq<char>)
    requires
        forall|j: int| 0 <= j < path.len() ==> !is_sep(path[j]),
    ensures
        spec_extract_file_name(path) == path,
    decreases path.len(),
{
    if path.len() > 0 {
        lemma_extract_no_sep(path.drop_last());
        assert(path.drop_last().push(path.last()) =~= path);
    }
}

proof fn lemma_extract_after_sep(path: Seq<char>, i: int)
    requires
        0 <= i < path.len(),
        is_sep(path[i]),
        forall|j: int| i < j < path.len() ==> !is_sep(path[j]),
    ensures
        spec_extract_file_name(path) == path.skip(i + 1),
    decreases path.len(),
{
    if i == path.len() - 1 {
        assert(path.skip(i + 1) =~= Seq::<char>::empty());
    } else {
        lemma_extract_after_sep(path.drop_last(), i);
        assert(path.drop_last().skip(i + 1).push(path.last()) =~= path.skip(i + 1));
    }
}

/// The file-name part of `path`: what follows the last `/` or `\`, which may
/// be empty when the path ends in a separator.
pub fn extract_file_name(path: &str) -> (r: String)
    ensures
        r@ == spec_extract_file_name(path@),
{
    let n = path.unicode_len();
    match last_index_of_either(path, '/', '\\') {
        Some(i) => {
            proof {
                lemma_extract_after_sep(path@, i as int);
            }
            substr_string(path, i + 1, n)
        },
        None => {
            proof {
                lemma_extract_no_sep(path@);
            }
            path.to_owned()
        },
    }
}

} // verus!
