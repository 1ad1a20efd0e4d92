//! Start-up registration: the value stored under the per-user `Run` key, and
//! the decisions on the registry calls' return codes.

use vstd::prelude::*;
use vstd::string::StringExecFns;
use crate::text::{wide, wide_units};

verus! {

/// `ERROR_SUCCESS`.
pub const ERROR_SUCCESS: u32 = 0;
/// `ERROR_FILE_NOT_FOUND`: the value does not exist.
pub const ERROR_FILE_NOT_FOUND: u32 = 2;
/// `ERROR_MORE_DATA`: the size query's way of reporting the needed size.
pub const ERROR_MORE_DATA: u32 = 234;

/// The text stored under the `Run` key: the program path in double quotes,
/// so that a path with spaces stays one command-line word.
pub open spec fn run_command(path: Seq<char>) -> Seq<char> {
    seq!['"'] + path + seq!['"']
}

/// The `REG_SZ` data for `path`: its quoted form as null-terminated UTF-16.
pub fn run_value_data(path: &str) -> (data: Vec<u16>)
    ensures
        data@ == wide_units(run_command(path@)),
{
    let mut quoted = String::from_str("\"");
    quoted.append(path);
    quoted.append("\"");
    proof {
        reveal_strlit("\"");
        assert(quoted@ =~= run_command(path@));
    }
    wide(quoted.as_str())
}

/// The byte count passed with `units` UTF-16 units (two bytes each), as the
/// 32-bit size the registry call takes.
pub fn data_byte_len(units: usize) -> (n: u32)
    ensures
        n == (2 * units) as u32,
{
    #[verifier::truncate]
    (((units as u128) * 2) as u32)
}

/// After the size query of the stored value: the number of UTF-16 units to
/// allocate (the size in bytes halved, plus one unit of room for a
/// terminator), or none when the query failed or the value is empty.
pub fn value_buffer_len(ret: u32, size: u32) -> (n: Option<usize>)
    ensures
        n == (if (ret != ERROR_SUCCESS && ret != ERROR_MORE_DATA) || size == 0 {
            None
        } else {
            Some((size / 2 + 1) as usize)
        }),
{
    if ret != ERROR_SUCCESS && ret != ERROR_MORE_DATA {
        return None;
    }
    if size == 0 {
        return None;
    }
    Some((size / 2) as usize + 1)
}

/// Removing the value succeeded, or it was not there: either way start-up
/// registration is off afterwards.
pub fn delete_succeeded(ret: u32) -> (ok: bool)
    ensures
        ok == (ret == ERROR_SUCCESS || ret == ERROR_FILE_NOT_FOUND),
{
    ret == ERROR_SUCCESS || ret == ERROR_FILE_NOT_FOUND
}

} // verus!
