//! Checks on a single path component handed to rename2.
use vstd::prelude::*;
use vstd::string::StringSliceAdditionalSpecFns;

use crate::flags::{EINVAL, ENOENT};

verus! {

/// Longest name, in bytes, that a layer accepts.
pub const NAME_MAX: usize = 255;

/// File name too long.
pub const ENAMETOOLONG: i32 = 36;

/// The path separator, as a byte.
pub const SEPARATOR: u8 = 47;

/// The error a name draws, if any: empty, longer than [`NAME_MAX`] bytes, or
/// holding a path separator.
pub open spec fn name_error(bytes: Seq<u8>) -> Option<i32> {
    if bytes.len() == 0 {
        Some(ENOENT)
    } else if bytes.len() > NAME_MAX {
        Some(ENAMETOOLONG)
    } else if bytes.contains(SEPARATOR) {
        Some(EINVAL)
    } else {
        None
    }
}

/// Checks that `name` is one acceptable path component.
pub fn check_name(name: &str) -> (r: Result<(), i32>)
    ensures
        match name_error(name.spec_bytes()) {
            Some(e) => r == Err::<(), i32>(e),
            None => r is Ok,
        },
{
    let bytes = name.as_bytes();
    if bytes.len() == 0 {
        return Err(ENOENT);
    }
    if bytes.len() > NAME_MAX {
        return Err(ENAMETOOLONG);
    }
    let mut i: usize = 0;
    while i < bytes.len()
        invariant
            i <= bytes@.len(),
            bytes@ == name.spec_bytes(),
            0 < bytes@.len() <= NAME_MAX,
            forall|j: int| 0 <= j < i ==> bytes@[j] != SEPARATOR,
        decreases bytes@.len() - i,
    {
        if bytes[i] == SEPARATOR {
            assert(bytes@[i as int] == SEPARATOR);
            assert(bytes@.contains(SEPARATOR));
            return Err(EINVAL);
        }
        i = i + 1;
    }
    assert(!bytes@.contains(SEPARATOR));
    Ok(())
}

} // verus!
