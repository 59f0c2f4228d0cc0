use vstd::prelude::*;

verus! {

/// Whether the sign bit of a binary64 encoding is set.
pub open spec fn sign_bit(bits: u64) -> bool {
    bits >= 0x8000_0000_0000_0000
}

/// The eleven exponent bits of a binary64 encoding.
pub open spec fn exponent_field(bits: u64) -> nat {
    ((bits as nat) / 0x10_0000_0000_0000) % 0x800
}

/// The fifty-two fraction bits of a binary64 encoding.
pub open spec fn fraction_field(bits: u64) -> nat {
    (bits as nat) % 0x10_0000_0000_0000
}

/// Whether the encoding stands for no number: all exponent bits set and a
/// fraction that is not zero.
pub open spec fn is_nan(bits: u64) -> bool {
    exponent_field(bits) == 0x7ff && fraction_field(bits) != 0
}

/// Whether the encoding stands for zero, of either sign.
pub open spec fn is_zero(bits: u64) -> bool {
    exponent_field(bits) == 0 && fraction_field(bits) == 0
}

/// Whether the encoding stands for a value above zero, infinity included.
pub open spec fn is_positive(bits: u64) -> bool {
    !sign_bit(bits) && !is_nan(bits) && !is_zero(bits)
}

/// Tells whether a binary64 encoding stands for a value above zero.
pub fn positive(bits: u64) -> (r: bool)
    ensures
        r == is_positive(bits),
{
    0 < bits && bits <= 0x7ff0_0000_0000_0000
}

} // verus!
