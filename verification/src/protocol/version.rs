//! Versions of the protocol.

use vstd::prelude::*;

verus! {

/// The version that is spoken.
pub const PROTOCOL_VERSION: u32 = 1;

/// The oldest version that is understood.
pub const MIN_COMPATIBLE_VERSION: u32 = 1;

/// The name under which the protocol is negotiated.
pub fn protocol_alpn() -> (name: Vec<u8>)
    ensures
        name@ == seq![0x66u8, 0x6c, 0x75, 0x78, 0x2f, 0x31],
{
    vec![0x66u8, 0x6c, 0x75, 0x78, 0x2f, 0x31]
}

/// Whether a version can be spoken with.
pub fn is_compatible(remote_version: u32) -> (compatible: bool)
    ensures
        compatible == (MIN_COMPATIBLE_VERSION <= remote_version <= PROTOCOL_VERSION),
{
    remote_version >= MIN_COMPATIBLE_VERSION && remote_version <= PROTOCOL_VERSION
}

/// One version is spoken, and it alone is understood.
pub proof fn law_one_version(version: u32)
    ensures
        MIN_COMPATIBLE_VERSION <= version <= PROTOCOL_VERSION <==> version == 1,
        PROTOCOL_VERSION == 1,
{
}

} // verus!
