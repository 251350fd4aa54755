//! SDDL access-control-entry flags (MS-DTYP 2.4.4.1).

use vstd::prelude::*;

verus! {

/// `OBJECT_INHERIT_ACE` — propagates to child objects.
pub const OBJECT_INHERIT: u8 = 0x01;

/// `CONTAINER_INHERIT_ACE` — propagates to child containers.
pub const CONTAINER_INHERIT: u8 = 0x02;

/// `NO_PROPAGATE_INHERIT_ACE` — inheritance does not propagate past one level.
pub const NO_PROPAGATE_INHERIT: u8 = 0x04;

/// `INHERIT_ONLY_ACE` — the ACE applies to children only, **not** the object
/// carrying it. Such ACEs are skipped when evaluating access to the object.
pub const INHERIT_ONLY: u8 = 0x08;

/// `INHERITED_ACE` — set on ACEs that were auto-inherited (informational).
pub const INHERITED: u8 = 0x10;

/// Each flag is the bit that Windows gives to it.
pub proof fn flags_are_windows_bits()
    ensures
        OBJECT_INHERIT == 0x01,
        CONTAINER_INHERIT == 0x02,
        NO_PROPAGATE_INHERIT == 0x04,
        INHERIT_ONLY == 0x08,
        INHERITED == 0x10,
{
}

} // verus!
