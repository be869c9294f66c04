//! Rename modifier bits and the errno values the core reports.
use vstd::prelude::*;

verus! {

/// Fail instead of replacing an existing destination.
pub const RENAME_NOREPLACE: u32 = 1;

/// Atomically swap source and destination.
pub const RENAME_EXCHANGE: u32 = 2;

/// Leave a whiteout marker at the vacated source position.
pub const RENAME_WHITEOUT: u32 = 4;

/// No such file or directory.
pub const ENOENT: i32 = 2;

/// Entry already exists.
pub const EEXIST: i32 = 17;

/// Not a directory.
pub const ENOTDIR: i32 = 20;

/// Is a directory.
pub const EISDIR: i32 = 21;

/// Invalid argument.
pub const EINVAL: i32 = 22;

/// Directory not empty.
pub const ENOTEMPTY: i32 = 39;

/// True iff `bit` is set in `flags`.
pub open spec fn has_bit(flags: u32, bit: u32) -> bool {
    flags & bit != 0
}

/// A flags word is acceptable when it holds only the three modifier bits and
/// EXCHANGE is combined with neither NOREPLACE nor WHITEOUT.
pub open spec fn flags_valid(flags: u32) -> bool {
    &&& flags & !7u32 == 0
    &&& !(has_bit(flags, RENAME_EXCHANGE) && has_bit(flags, RENAME_NOREPLACE))
    &&& !(has_bit(flags, RENAME_EXCHANGE) && has_bit(flags, RENAME_WHITEOUT))
}

/// Facts about the flags words 0 and EXCHANGE.
pub proof fn lemma_plain_flags()
    ensures
        flags_valid(0),
        !has_bit(0, RENAME_NOREPLACE),
        !has_bit(0, RENAME_EXCHANGE),
        !has_bit(0, RENAME_WHITEOUT),
        0u32 & !RENAME_NOREPLACE == 0,
        flags_valid(RENAME_EXCHANGE),
        !has_bit(RENAME_EXCHANGE, RENAME_NOREPLACE),
        has_bit(RENAME_EXCHANGE, RENAME_EXCHANGE),
        !has_bit(RENAME_EXCHANGE, RENAME_WHITEOUT),
{
    assert(0u32 & 7u32 == 0 && 0u32 & 1u32 == 0 && 0u32 & 2u32 == 0 && 0u32 & 4u32 == 0
        && 0u32 & !1u32 == 0 && 0u32 & !7u32 == 0) by (bit_vector);
    assert(2u32 & !7u32 == 0 && 2u32 & 1u32 == 0 && 2u32 & 2u32 != 0 && 2u32 & 4u32 == 0) by (bit_vector);
}

/// Clearing NOREPLACE from an acceptable flags word keeps it acceptable and
/// keeps the other two bits.
pub proof fn lemma_drop_noreplace(flags: u32)
    ensures
        flags_valid(flags) ==> flags_valid(flags & !RENAME_NOREPLACE),
        !has_bit(flags & !RENAME_NOREPLACE, RENAME_NOREPLACE),
        has_bit(flags & !RENAME_NOREPLACE, RENAME_EXCHANGE) == has_bit(flags, RENAME_EXCHANGE),
        has_bit(flags & !RENAME_NOREPLACE, RENAME_WHITEOUT) == has_bit(flags, RENAME_WHITEOUT),
{
    assert((flags & !7u32 == 0) ==> ((flags & !1u32) & !7u32 == 0)) by (bit_vector);
    assert((flags & !1u32) & 1u32 == 0) by (bit_vector);
    assert(((flags & !1u32) & 2u32 != 0) == (flags & 2u32 != 0)) by (bit_vector);
    assert(((flags & !1u32) & 4u32 != 0) == (flags & 4u32 != 0)) by (bit_vector);
}

/// Checks a flags word before any side effect: `Err(EINVAL)` exactly when it
/// is not acceptable.
pub fn validate_flags(flags: u32) -> (r: Result<(), i32>)
    ensures
        r is Ok <==> flags_valid(flags),
        r is Err ==> r == Err::<(), i32>(EINVAL),
{
    if flags & !7u32 != 0 {
        return Err(EINVAL);
    }
    let exchange = flags & RENAME_EXCHANGE != 0;
    if exchange && (flags & RENAME_NOREPLACE != 0 || flags & RENAME_WHITEOUT != 0) {
        return Err(EINVAL);
    }
    Ok(())
}

} // verus!
