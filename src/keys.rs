//! How an index becomes the key bytes of a dynamic field, and which indices a
//! range read covers.

use vstd::prelude::*;

verus! {

/// The family of a field's key type. It fixes how an index is encoded: the
/// encoding must be the one the execution engine used when the field was
/// created, or the derived id never matches.
#[derive(Clone, Copy, Debug, PartialEq, Eq)]
pub enum KeyKind {
    /// A `u64` key: eight bytes.
    U64,
    /// A struct key wrapping a `u32` (a signed tick as its bits): four bytes.
    Struct,
    /// Any other key type: encoded as a `u64`.
    Other,
}

/// `n` bytes of `v`, least significant first.
pub open spec fn le_bytes(v: nat, n: nat) -> Seq<u8>
    decreases n,
{
    if n == 0 {
        Seq::empty()
    } else {
        seq![(v % 256) as u8] + le_bytes(v / 256, (n - 1) as nat)
    }
}

/// The key bytes of `index` for a key of kind `kind`.
pub open spec fn key_bytes_of(index: u64, kind: KeyKind) -> Seq<u8> {
    match kind {
        KeyKind::Struct => le_bytes((index as u32) as nat, 4),
        _ => le_bytes(index as nat, 8),
    }
}

#[verifier::external_type_specification]
#[verifier::external_body]
pub struct ExBcsError(bcs::Error);

/// Relies on `bcs::to_bytes` for a `u64`: the value's eight little-endian
/// bytes, written into a `Vec`, which cannot fail.
#[verifier::external_body]
fn bcs_u64(v: u64) -> (r: Result<Vec<u8>, bcs::Error>)
    ensures
        r is Ok,
        r is Ok ==> r->Ok_0@ == le_bytes(v as nat, 8),
{
    bcs::to_bytes(&v)
}

/// Relies on `bcs::to_bytes` for a `u32`: the value's four little-endian
/// bytes, written into a `Vec`, which cannot fail.
#[verifier::external_body]
fn bcs_u32(v: u32) -> (r: Result<Vec<u8>, bcs::Error>)
    ensures
        r is Ok,
        r is Ok ==> r->Ok_0@ == le_bytes(v as nat, 4),
{
    bcs::to_bytes(&v)
}

/// Failure to turn an index into key bytes.
#[derive(Clone, Copy, Debug, PartialEq, Eq)]
pub enum EncodingError {
    Serialization,
}

/// Encode `index` as the key bytes for `kind` (a struct key keeps the low
/// 32 bits of the index).
pub fn encode_key_bytes(index: u64, kind: KeyKind) -> (r: Result<Vec<u8>, EncodingError>)
    ensures
        r matches Ok(b) && b@ == key_bytes_of(index, kind),
{
    let encoded = match kind {
        KeyKind::Struct => bcs_u32(index as u32),
        _ => bcs_u64(index),
    };
    match encoded {
        Ok(b) => Ok(b),
        Err(_) => Err(EncodingError::Serialization),
    }
}

/// The first index a read of `radius` around `center` covers.
pub open spec fn range_lower(center: u64, radius: u64) -> u64 {
    if center >= radius { (center - radius) as u64 } else { 0 }
}

/// The last index a read of `radius` around `center` covers.
pub open spec fn range_upper(center: u64, radius: u64) -> u64 {
    if center + radius <= u64::MAX { (center + radius) as u64 } else { u64::MAX }
}

/// The inclusive bounds of a read of `radius` around `center`, clamped to the
/// index domain instead of wrapping.
pub fn index_bounds(center: u64, radius: u64) -> (r: (u64, u64))
    ensures
        r.0 == range_lower(center, radius),
        r.1 == range_upper(center, radius),
        r.0 <= center <= r.1,
{
    (center.saturating_sub(radius), center.saturating_add(radius))
}

/// How many indices a read of `radius` around `center` covers: `2 * radius + 1`
/// away from the ends of the domain, fewer where a bound is clamped.
pub proof fn lemma_range_size(center: u64, radius: u64)
    ensures
        range_upper(center, radius) - range_lower(center, radius) + 1
            == (if center >= radius { radius as int } else { center as int })
            + 1
            + (if center + radius <= u64::MAX { radius as int } else { u64::MAX - center }),
        radius <= center && center + radius <= u64::MAX ==>
            range_upper(center, radius) - range_lower(center, radius) + 1 == 2 * radius + 1,
{
}

} // verus!
