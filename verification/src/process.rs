//! The background worker's process id, as the pid file holds it.
use vstd::prelude::*;
use crate::text::{chars_of, string_of, trim, trim_range};

verus! {

/// The process id that the pid file's text names: the text trimmed, when that
/// is not empty.
pub open spec fn pid_spec(contents: Seq<char>) -> Option<Seq<char>> {
    if trim(contents).len() == 0 {
        None
    } else {
        Some(trim(contents))
    }
}

/// Reads the process id to stop out of the pid file's text.
pub fn pid_from_file(contents: &str) -> (r: Option<String>)
    ensures
        pid_spec(contents@) == match r {
            Some(s) => Some(s@),
            None => None,
        },
{
    let v = chars_of(contents);
    assert(v@.subrange(0, v@.len() as int) =~= contents@);
    let (a, b) = trim_range(&v, 0, v.len());
    if a == b {
        None
    } else {
        Some(string_of(&v, a, b))
    }
}

} // verus!
