//! Which directory entries a scan passes over.

use crate::text::{is_listed, listed};
use vstd::prelude::*;

verus! {

/// A scan passes over an entry whose name is on the ignore list or begins
/// with a dot.
pub open spec fn passed_over(name: Seq<char>, ignore_list: Seq<String>) -> bool {
    listed(ignore_list, name) || (name.len() > 0 && name[0] == '.')
}

/// Whether a scan that honours `ignore_list` passes over the entry `name`,
/// and with it all that lies below.
pub fn is_ignored(name: &str, ignore_list: &Vec<String>) -> (res: bool)
    ensures
        res == passed_over(name@, ignore_list@),
{
    if is_listed(ignore_list, name) {
        return true;
    }
    name.unicode_len() > 0 && name.get_char(0) == '.'
}

} // verus!
