use vstd::prelude::*;

verus! {

/// The feature flags that client and server agreed on during the handshake.
///
/// A value is made once and only read afterwards; the decoders take it by
/// value or by shared reference. A flag is a `u64` with one bit set; several
/// flags are combined with `|`.
#[derive(Clone, Copy, Debug, PartialEq, Eq, Structural)]
pub struct Capabilities {
    bits: u64,
}

impl Capabilities {
    /// The 4.1 protocol.
    pub const CLIENT_PROTOCOL_41: u64 = 0x0000_0200;

    /// The server sends no EOF packet after a run of column definitions.
    pub const CLIENT_DEPRECATE_EOF: u64 = 0x0100_0000;

    /// The flags as a number.
    pub closed spec fn spec_bits(self) -> u64 {
        self.bits
    }

    /// Whether every bit of `flag` is set in `self`.
    pub open spec fn spec_contains(self, flag: u64) -> bool {
        self.spec_bits() & flag == flag
    }

    /// Whether the server leaves out the EOF packet that ends a group.
    pub open spec fn deprecate_eof(self) -> bool {
        self.spec_contains(0x0100_0000)
    }

    pub fn empty() -> (r: Capabilities)
        ensures
            r.spec_bits() == 0,
    {
        Capabilities { bits: 0 }
    }

    pub fn from_bits(bits: u64) -> (r: Capabilities)
        ensures
            r.spec_bits() == bits,
    {
        Capabilities { bits }
    }

    pub fn bits(&self) -> (r: u64)
        ensures
            r == self.spec_bits(),
    {
        self.bits
    }

    pub fn contains(&self, flag: u64) -> (r: bool)
        ensures
            r == self.spec_contains(flag),
    {
        self.bits & flag == flag
    }

    /// Whether the deprecate-EOF flag is set.
    pub fn has_deprecate_eof(&self) -> (r: bool)
        ensures
            r == self.deprecate_eof(),
    {
        self.contains(Capabilities::CLIENT_DEPRECATE_EOF)
    }
}

} // verus!
