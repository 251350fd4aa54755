//! Windows access-right bits (a representative subset).

use vstd::prelude::*;

verus! {

/// `FILE_READ_DATA` — read the contents of a file.
pub const FILE_READ_DATA: u32 = 0x0000_0001;

/// `FILE_WRITE_DATA` — write bytes into a file, overwriting existing data.
pub const FILE_WRITE_DATA: u32 = 0x0000_0002;

/// `FILE_APPEND_DATA` — append bytes to a file.
pub const FILE_APPEND_DATA: u32 = 0x0000_0004;

/// `FILE_EXECUTE` — execute the file / traverse the directory.
pub const FILE_EXECUTE: u32 = 0x0000_0020;

/// Standard `DELETE` right.
pub const DELETE: u32 = 0x0001_0000;

/// Standard `READ_CONTROL` right (read the security descriptor).
pub const READ_CONTROL: u32 = 0x0002_0000;

/// Standard `WRITE_DAC` right (change the DACL).
pub const WRITE_DAC: u32 = 0x0004_0000;

/// Standard `WRITE_OWNER` right (change the owner).
pub const WRITE_OWNER: u32 = 0x0008_0000;

/// Standard `SYNCHRONIZE` right (use the object for wait operations).
pub const SYNCHRONIZE: u32 = 0x0010_0000;

/// `GENERIC_ALL` — resolves to `mapping.all` via [`crate::GenericMapping::map`].
pub const GENERIC_ALL: u32 = 0x1000_0000;

/// `GENERIC_EXECUTE` — resolves to `mapping.execute`.
pub const GENERIC_EXECUTE: u32 = 0x2000_0000;

/// `GENERIC_WRITE` — resolves to `mapping.write`.
pub const GENERIC_WRITE: u32 = 0x4000_0000;

/// `GENERIC_READ` — resolves to `mapping.read`.
pub const GENERIC_READ: u32 = 0x8000_0000;

/// Mask covering all four generic bits, useful for stripping them.
pub const GENERIC_MASK: u32 = GENERIC_READ | GENERIC_WRITE | GENERIC_EXECUTE | GENERIC_ALL;

/// Write-class rights subject to the mandatory-integrity no-write-up rule.
pub const WRITE_CLASS: u32 = FILE_WRITE_DATA | FILE_APPEND_DATA | DELETE | WRITE_DAC | WRITE_OWNER;

/// Each right is the bit that Windows gives to it, and the two joint masks hold
/// the bits of their rights.
pub proof fn rights_are_windows_bits()
    by (bit_vector)
    ensures
        FILE_READ_DATA == 0x1u32,
        FILE_WRITE_DATA == 0x2u32,
        FILE_APPEND_DATA == 0x4u32,
        FILE_EXECUTE == 0x20u32,
        DELETE == 0x1_0000u32,
        READ_CONTROL == 0x2_0000u32,
        WRITE_DAC == 0x4_0000u32,
        WRITE_OWNER == 0x8_0000u32,
        SYNCHRONIZE == 0x10_0000u32,
        GENERIC_ALL == 0x1000_0000u32,
        GENERIC_EXECUTE == 0x2000_0000u32,
        GENERIC_WRITE == 0x4000_0000u32,
        GENERIC_READ == 0x8000_0000u32,
        GENERIC_MASK == 0xF000_0000u32,
        WRITE_CLASS == 0x000D_0006u32,
{
}

} // verus!
