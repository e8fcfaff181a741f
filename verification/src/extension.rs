//! Telling sample files by their names.

use vstd::prelude::*;
use crate::text::chars_of;

verus! {

/// The name has the extension `wav`, in any mix of cases: it ends in a dot and
/// the three letters, and something stands before the dot.
pub open spec fn is_wav_name(name: Seq<char>) -> bool {
    let n = name.len() as int;
    &&& n >= 5
    &&& name[n - 4] == '.'
    &&& (name[n - 3] == 'w' || name[n - 3] == 'W')
    &&& (name[n - 2] == 'a' || name[n - 2] == 'A')
    &&& (name[n - 1] == 'v' || name[n - 1] == 'V')
}

/// Whether the file `file_name` is taken for a sample.
pub fn has_wav_extension(file_name: &str) -> (r: bool)
    ensures
        r == is_wav_name(file_name@),
{
    let chars = chars_of(file_name);
    let n = chars.len();
    n >= 5 && chars[n - 4] == '.' && (chars[n - 3] == 'w' || chars[n - 3] == 'W') && (chars[n - 2]
        == 'a' || chars[n - 2] == 'A') && (chars[n - 1] == 'v' || chars[n - 1] == 'V')
}

} // verus!
