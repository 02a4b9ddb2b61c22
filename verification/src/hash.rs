//! The game's name hash.
use vstd::prelude::*;
use vstd::utf8::encode_utf8;

verus! {

/// One byte taken into the hash.
pub open spec fn joaat_step(h: u32, b: u8) -> u32 {
    let a = h.wrapping_add(b as u32);
    let c = a.wrapping_add(a << 10u32);
    c ^ (c >> 6u32)
}

/// The bytes taken into the hash one after the other.
pub open spec fn joaat_bytes(bytes: Seq<u8>) -> u32
    decreases bytes.len(),
{
    if bytes.len() == 0 {
        0
    } else {
        joaat_step(joaat_bytes(bytes.drop_last()), bytes.last())
    }
}

/// The Jenkins one-at-a-time hash of a text's bytes.
pub open spec fn joaat(s: Seq<char>) -> u32 {
    let h = joaat_bytes(encode_utf8(s));
    let a = h.wrapping_add(h << 3u32);
    let b = a ^ (a >> 11u32);
    b.wrapping_add(b << 15u32)
}

/// `rage_formats::rage_joaat`: the Jenkins one-at-a-time hash of the text's
/// bytes as they are, with every addition wrapping.
#[verifier::external_body]
pub(crate) fn rage_joaat(s: &str) -> (h: u32)
    ensures
        h == joaat(s@),
{
    rage_formats::rage_joaat(s)
}

} // verus!
