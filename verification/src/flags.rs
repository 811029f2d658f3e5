//! Record flags: a small bit set stored in one byte.

use vstd::prelude::*;

verus! {

/// Flags attached to a compressed-alignment record.
#[derive(Clone, Copy, Debug, PartialEq, Eq, Structural)]
pub struct Flags(u8);

impl Flags {
    /// The flag for quality scores stored as an array rather than encoded
    /// per base. A function because a constant cannot carry this type here.
    #[allow(non_snake_case)]
    pub fn QUALITY_SCORES_STORED_AS_ARRAY() -> (r: Flags)
        ensures
            r.spec_bits() == 0x01,
    {
        Flags(0x01)
    }

    /// The flag for a record detached from its mate.
    #[allow(non_snake_case)]
    pub fn DETACHED() -> (r: Flags)
        ensures
            r.spec_bits() == 0x02,
    {
        Flags(0x02)
    }

    /// The flag for a mate that appears downstream in the same container.
    #[allow(non_snake_case)]
    pub fn HAS_MATE_DOWNSTREAM() -> (r: Flags)
        ensures
            r.spec_bits() == 0x04,
    {
        Flags(0x04)
    }

    /// The flag for decoding the sequence as unknown bases.
    #[allow(non_snake_case)]
    pub fn DECODE_SEQUENCE_AS_UNKNOWN() -> (r: Flags)
        ensures
            r.spec_bits() == 0x08,
    {
        Flags(0x08)
    }

    /// The raw bit pattern.
    pub closed spec fn spec_bits(self) -> u8 {
        self.0
    }

    /// The bits every defined flag covers.
    pub open spec fn spec_mask() -> u8 {
        0x0f
    }

    /// The raw bit pattern as a byte.
    pub fn bits(self) -> (r: u8)
        ensures
            r == self.spec_bits(),
    {
        self.0
    }

    /// Whether no flag is set.
    pub fn is_empty(self) -> (r: bool)
        ensures
            r == (self.spec_bits() == 0),
    {
        self.0 == 0
    }

    /// Whether every flag of `other` is set in `self`.
    pub fn contains(self, other: Flags) -> (r: bool)
        ensures
            r == (self.spec_bits() & other.spec_bits() == other.spec_bits()),
    {
        self.0 & other.0 == other.0
    }

    /// Whether the quality scores of the record are stored as an array.
    pub fn are_quality_scores_stored_as_array(self) -> (r: bool)
        ensures
            r == (self.spec_bits() & 0x01 == 0x01),
    {
        self.contains(Flags(0x01))
    }

    /// Whether the record is detached from its mate.
    pub fn is_detached(self) -> (r: bool)
        ensures
            r == (self.spec_bits() & 0x02 == 0x02),
    {
        self.contains(Flags(0x02))
    }

    /// Whether the record's mate appears downstream.
    pub fn has_mate_downstream(self) -> (r: bool)
        ensures
            r == (self.spec_bits() & 0x04 == 0x04),
    {
        self.contains(Flags(0x04))
    }

    /// Whether the sequence should be decoded as unknown bases.
    pub fn decode_sequence_as_unknown(self) -> (r: bool)
        ensures
            r == (self.spec_bits() & 0x08 == 0x08),
    {
        self.contains(Flags(0x08))
    }
}

/// The bit pattern determines the value: two flag values with equal bits
/// are the same value.
pub proof fn lemma_bits_injective(a: Flags, b: Flags)
    requires
        a.spec_bits() == b.spec_bits(),
    ensures
        a == b,
{
}

impl Default for Flags {
    /// No flag set.
    fn default() -> (r: Flags)
        ensures
            r.spec_bits() == 0,
    {
        Flags(0)
    }
}

impl From<u8> for Flags {
    /// Keeps the defined flag bits of `value` and drops the rest.
    fn from(value: u8) -> (r: Flags)
        ensures
            r.spec_bits() == value & Flags::spec_mask(),
    {
        Flags(value & 0x0f)
    }
}

impl vstd::std_specs::convert::FromSpecImpl<u8> for Flags {
    open spec fn obeys_from_spec() -> bool {
        true
    }

    closed spec fn from_spec(value: u8) -> Flags {
        Flags(value & Flags::spec_mask())
    }
}

impl From<Flags> for u8 {
    /// The raw bit pattern of the flags.
    fn from(flags: Flags) -> (r: u8)
        ensures
            r == flags.spec_bits(),
    {
        flags.0
    }
}

impl vstd::std_specs::convert::FromSpecImpl<Flags> for u8 {
    open spec fn obeys_from_spec() -> bool {
        true
    }

    open spec fn from_spec(flags: Flags) -> u8 {
        flags.spec_bits()
    }
}

} // verus!
