use vstd::prelude::*;

verus! {

/// A release number in four parts.
#[derive(Copy, Clone, Debug)]
pub struct Version {
    pub major: u8,
    pub minor: u8,
    pub patch: u8,
    pub unpublished_v: u8,
}

/// The four parts of a version packed into one number, `major` in the highest
/// of the four low bytes.
pub open spec fn packed_version(major: u8, minor: u8, patch: u8, unpublished_v: u8) -> u64 {
    (major as u64) << 24 | (minor as u64) << 16 | (patch as u64) << 8 | (unpublished_v as u64)
}

/// The version of this build, as text.
pub const VERSION_STR: &'static str = "0.0.0-0";

/// The fixed high half of every protocol identifier.
pub const PROTOCOL_TAG: u64 = 0x1234abcd00000000;

/// The version of this build.
pub fn current_version() -> (v: Version)
    ensures
        v.major == 0,
        v.minor == 0,
        v.patch == 0,
        v.unpublished_v == 1,
{
    Version { major: 0, minor: 0, patch: 0, unpublished_v: 1 }
}

impl Version {
    /// The number two peers compare to learn whether they speak the same
    /// protocol: one byte per part.
    pub fn protocol_v(&self) -> (v: u64)
        ensures
            v == packed_version(self.major, self.minor, self.patch, self.unpublished_v),
            v == self.major * 0x100_0000 + self.minor * 0x1_0000 + self.patch * 0x100
                + self.unpublished_v,
    {
        let major: u64 = self.major as u64;
        let minor: u64 = self.minor as u64;
        let patch: u64 = self.patch as u64;
        let unpublished: u64 = self.unpublished_v as u64;
        assert((major << 24 | minor << 16 | patch << 8 | unpublished) == major * 0x100_0000
            + minor * 0x1_0000 + patch * 0x100 + unpublished) by (bit_vector)
            requires
                major < 256,
                minor < 256,
                patch < 256,
                unpublished < 256,
        ;
        (major << 24) | (minor << 16) | (patch << 8) | unpublished
    }
}

/// The identifier a connection is opened with: the fixed tag over the packed
/// version of this build.
pub fn protocol_id() -> (id: u64)
    ensures
        id == 0x1234abcd00000001,
{
    let v = current_version().protocol_v();
    assert((0x1234abcd00000000u64 | v) == 0x1234abcd00000001) by (bit_vector)
        requires
            v == 1,
    ;
    PROTOCOL_TAG | v
}

} // verus!
