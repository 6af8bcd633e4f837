use vstd::prelude::*;
use uuid::Uuid;

verus! {

/// Whether 16 bytes are a UUID of version 4 (random) with the RFC 4122
/// variant: the high four bits of byte 6 are `0100` and the high two bits of
/// byte 8 are `10`.
pub open spec fn is_random_uuid(bytes: Seq<u8>) -> bool {
    &&& bytes.len() == 16
    &&& bytes[6] / 16 == 4
    &&& bytes[8] / 64 == 2
}

/// `uuid::Uuid::new_v4`, as its 16 bytes: the other 122 bits are random, and
/// `new_v4` masks in the version (4) and the RFC 4122 variant bits.
#[verifier::external_body]
fn uuid_new_v4_bytes() -> (r: [u8; 16])
    ensures
        is_random_uuid(r@),
{
    Uuid::new_v4().into_bytes()
}

/// A new random identifier, as the 16 bytes of a UUID: version 4 with the
/// RFC 4122 variant, the other bits drawn at random.
pub fn generate_uuid() -> (r: [u8; 16])
    ensures
        is_random_uuid(r@),
{
    uuid_new_v4_bytes()
}

/// The shape of an animation's progress from its origin to its target.
#[derive(Clone, Copy, Debug, PartialEq, Eq, Structural)]
pub enum Easing {
    /// No easing: the value jumps to the target.
    Step,
    Linear,
    Sine,
    SineIn,
    SineOut,
}

} // verus!
