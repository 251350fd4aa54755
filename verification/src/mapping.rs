//! Resolution of generic rights into object-specific rights.

use crate::rights;
use vstd::prelude::*;

verus! {

/// Maps the four generic rights onto object-specific right sets, as Windows
/// `MapGenericMask` does before an access check.
#[derive(Clone, Debug)]
pub struct GenericMapping {
    /// Right bits that `GENERIC_READ` maps to.
    pub read: u32,
    /// Right bits that `GENERIC_WRITE` maps to.
    pub write: u32,
    /// Right bits that `GENERIC_EXECUTE` maps to.
    pub execute: u32,
    /// Right bits that `GENERIC_ALL` maps to.
    pub all: u32,
}

/// The specific bits of `mask`, joined with `read` if `GENERIC_READ` is set in
/// it, and likewise for the other three.
pub open spec fn resolve(mask: u32, read: u32, write: u32, execute: u32, all: u32) -> u32 {
    (mask & !rights::GENERIC_MASK)
        | crate::masks::bits_if(mask & rights::GENERIC_READ != 0, read)
        | crate::masks::bits_if(mask & rights::GENERIC_WRITE != 0, write)
        | crate::masks::bits_if(mask & rights::GENERIC_EXECUTE != 0, execute)
        | crate::masks::bits_if(mask & rights::GENERIC_ALL != 0, all)
}

impl GenericMapping {
    /// The mapping that [`GenericMapping::file`] returns.
    pub open spec fn file_mapping() -> GenericMapping {
        GenericMapping {
            read: rights::FILE_READ_DATA | rights::READ_CONTROL | rights::SYNCHRONIZE,
            write: rights::FILE_WRITE_DATA | rights::FILE_APPEND_DATA | rights::READ_CONTROL,
            execute: rights::FILE_EXECUTE | rights::READ_CONTROL | rights::SYNCHRONIZE,
            all: rights::FILE_READ_DATA | rights::FILE_WRITE_DATA | rights::FILE_APPEND_DATA
                | rights::FILE_EXECUTE | rights::DELETE | rights::READ_CONTROL | rights::WRITE_DAC
                | rights::WRITE_OWNER | rights::SYNCHRONIZE,
        }
    }

    /// A file-like mapping, for examples and tests.
    pub fn file() -> (mapping: GenericMapping)
        ensures
            mapping == GenericMapping::file_mapping(),
    {
        GenericMapping {
            read: rights::FILE_READ_DATA | rights::READ_CONTROL | rights::SYNCHRONIZE,
            write: rights::FILE_WRITE_DATA | rights::FILE_APPEND_DATA | rights::READ_CONTROL,
            execute: rights::FILE_EXECUTE | rights::READ_CONTROL | rights::SYNCHRONIZE,
            all: rights::FILE_READ_DATA | rights::FILE_WRITE_DATA | rights::FILE_APPEND_DATA
                | rights::FILE_EXECUTE | rights::DELETE | rights::READ_CONTROL | rights::WRITE_DAC
                | rights::WRITE_OWNER | rights::SYNCHRONIZE,
        }
    }

    /// The rights that `mask` stands for: its specific bits, and for each
    /// generic bit in it the bits that this mapping gives to that one.
    pub open spec fn mapped(self, mask: u32) -> u32 {
        resolve(mask, self.read, self.write, self.execute, self.all)
    }

    /// Resolve the generic bits in `mask` into specific bits.
    pub fn map(&self, mask: u32) -> (out: u32)
        ensures
            out == self.mapped(mask),
    {
        let mut out: u32 = mask & !rights::GENERIC_MASK;
        if mask & rights::GENERIC_READ != 0 {
            out |= self.read;
        }
        if mask & rights::GENERIC_WRITE != 0 {
            out |= self.write;
        }
        if mask & rights::GENERIC_EXECUTE != 0 {
            out |= self.execute;
        }
        if mask & rights::GENERIC_ALL != 0 {
            out |= self.all;
        }
        proof {
            crate::masks::lemma_mask_units();
        }
        out
    }
}

impl GenericMapping {
    /// None of the rights that the mapping gives is itself a generic one.
    pub open spec fn is_specific(self) -> bool {
        &&& self.read & rights::GENERIC_MASK == 0
        &&& self.write & rights::GENERIC_MASK == 0
        &&& self.execute & rights::GENERIC_MASK == 0
        &&& self.all & rights::GENERIC_MASK == 0
    }

    /// None of the rights that the mapping gives to the generic bits of `mask`
    /// is itself a generic one.
    pub open spec fn is_specific_for(self, mask: u32) -> bool {
        &&& mask & rights::GENERIC_READ != 0 ==> self.read & rights::GENERIC_MASK == 0
        &&& mask & rights::GENERIC_WRITE != 0 ==> self.write & rights::GENERIC_MASK == 0
        &&& mask & rights::GENERIC_EXECUTE != 0 ==> self.execute & rights::GENERIC_MASK == 0
        &&& mask & rights::GENERIC_ALL != 0 ==> self.all & rights::GENERIC_MASK == 0
    }

    /// A mask without generic bits maps to itself.
    pub proof fn specific_mask_is_unchanged(self, mask: u32)
        requires
            mask & rights::GENERIC_MASK == 0,
        ensures
            self.mapped(mask) == mask,
    {
        let (r, w, x, a) = (self.read, self.write, self.execute, self.all);
        assert(resolve(mask, r, w, x, a) == mask) by (bit_vector)
            requires
                mask & rights::GENERIC_MASK == 0,
        ;
    }

    /// Each generic right maps to the set that the mapping holds for it.
    pub proof fn generic_right_maps_to_its_set(self)
        ensures
            self.mapped(rights::GENERIC_READ) == self.read,
            self.mapped(rights::GENERIC_WRITE) == self.write,
            self.mapped(rights::GENERIC_EXECUTE) == self.execute,
            self.mapped(rights::GENERIC_ALL) == self.all,
    {
        let (r, w, x, a) = (self.read, self.write, self.execute, self.all);
        assert(resolve(rights::GENERIC_READ, r, w, x, a) == r && resolve(
            rights::GENERIC_WRITE,
            r,
            w,
            x,
            a,
        ) == w && resolve(rights::GENERIC_EXECUTE, r, w, x, a) == x && resolve(
            rights::GENERIC_ALL,
            r,
            w,
            x,
            a,
        ) == a) by (bit_vector);
    }

    /// Mapping two masks together is mapping each and joining the results.
    pub proof fn mapping_joins(self, first: u32, second: u32)
        ensures
            self.mapped(first | second) == self.mapped(first) | self.mapped(second),
    {
        let (r, w, x, a) = (self.read, self.write, self.execute, self.all);
        assert(resolve(first | second, r, w, x, a) == resolve(first, r, w, x, a) | resolve(
            second,
            r,
            w,
            x,
            a,
        )) by (bit_vector);
    }

    /// No generic bit is left after mapping exactly if the mapping gives
    /// specific rights only to the generic bits of the mask; mapping a second
    /// time then changes nothing. A mapping that gives specific rights only
    /// does so for every mask.
    pub proof fn mapping_leaves_no_generic_bit(self, mask: u32)
        ensures
            self.mapped(mask) & rights::GENERIC_MASK == 0 <==> self.is_specific_for(mask),
            self.is_specific_for(mask) ==> self.mapped(self.mapped(mask)) == self.mapped(mask),
            self.is_specific() ==> self.is_specific_for(mask),
    {
        let (r, w, x, a) = (self.read, self.write, self.execute, self.all);
        assert((resolve(mask, r, w, x, a) & rights::GENERIC_MASK == 0) == ((mask
            & rights::GENERIC_READ != 0 ==> r & rights::GENERIC_MASK == 0) && (mask
            & rights::GENERIC_WRITE != 0 ==> w & rights::GENERIC_MASK == 0) && (mask
            & rights::GENERIC_EXECUTE != 0 ==> x & rights::GENERIC_MASK == 0) && (mask
            & rights::GENERIC_ALL != 0 ==> a & rights::GENERIC_MASK == 0))) by (bit_vector);
        if self.is_specific_for(mask) {
            self.specific_mask_is_unchanged(self.mapped(mask));
        }
    }

    /// The file-like mapping gives specific rights only.
    pub proof fn file_mapping_is_specific()
        ensures
            GenericMapping::file_mapping().is_specific(),
    {
        GenericMapping::lemma_file_masks();
    }

    /// The rights that the file-like mapping gives, as Windows numbers them:
    /// reading, writing and executing a file, each with `READ_CONTROL`, and
    /// altogether every right on a file.
    pub proof fn file_mapping_gives_file_rights()
        ensures
            GenericMapping::file_mapping().read == 0x0012_0001,
            GenericMapping::file_mapping().write == 0x0002_0006,
            GenericMapping::file_mapping().execute == 0x0012_0020,
            GenericMapping::file_mapping().all == 0x001F_0027,
    {
        GenericMapping::lemma_file_masks();
    }

    proof fn lemma_file_masks()
        ensures
            GenericMapping::file_mapping().is_specific(),
            GenericMapping::file_mapping().read == 0x0012_0001,
            GenericMapping::file_mapping().write == 0x0002_0006,
            GenericMapping::file_mapping().execute == 0x0012_0020,
            GenericMapping::file_mapping().all == 0x001F_0027,
    {
        let file = GenericMapping::file_mapping();
        let (r, w, x, a) = (file.read, file.write, file.execute, file.all);
        assert(r & rights::GENERIC_MASK == 0 && w & rights::GENERIC_MASK == 0 && x
            & rights::GENERIC_MASK == 0 && a & rights::GENERIC_MASK == 0 && r == 0x0012_0001u32 && w
            == 0x0002_0006u32 && x == 0x0012_0020u32 && a == 0x001F_0027u32) by (bit_vector)
            requires
                r == rights::FILE_READ_DATA | rights::READ_CONTROL | rights::SYNCHRONIZE,
                w == rights::FILE_WRITE_DATA | rights::FILE_APPEND_DATA | rights::READ_CONTROL,
                x == rights::FILE_EXECUTE | rights::READ_CONTROL | rights::SYNCHRONIZE,
                a == rights::FILE_READ_DATA | rights::FILE_WRITE_DATA | rights::FILE_APPEND_DATA
                    | rights::FILE_EXECUTE | rights::DELETE | rights::READ_CONTROL
                    | rights::WRITE_DAC | rights::WRITE_OWNER | rights::SYNCHRONIZE,
        ;
    }

    /// Where the rights of a mapped mask come from: a mask `some` meets the
    /// result exactly if it meets the lower 28 bits of `mask`, or the read,
    /// write, execute or full set of the mapping where the highest, second,
    /// third or fourth highest bit of `mask` asks for that set.
    pub proof fn mapped_rights_have_a_source(self, mask: u32, some: u32)
        ensures
            self.mapped(mask) & some != 0 <==> {
                ||| (mask & 0x0FFF_FFFF) & some != 0
                ||| mask & 0x8000_0000 != 0 && self.read & some != 0
                ||| mask & 0x4000_0000 != 0 && self.write & some != 0
                ||| mask & 0x2000_0000 != 0 && self.execute & some != 0
                ||| mask & 0x1000_0000 != 0 && self.all & some != 0
            },
    {
        let (r, w, x, a) = (self.read, self.write, self.execute, self.all);
        assert((resolve(mask, r, w, x, a) & some != 0) == ((mask & 0x0FFF_FFFFu32) & some != 0 || (
        mask & 0x8000_0000u32 != 0 && r & some != 0) || (mask & 0x4000_0000u32 != 0 && w & some
            != 0) || (mask & 0x2000_0000u32 != 0 && x & some != 0) || (mask & 0x1000_0000u32 != 0
            && a & some != 0))) by (bit_vector);
    }
}

} // verus!
