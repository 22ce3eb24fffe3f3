//! The plain data the registry works on: caller identities, profile
//! records, and the error taxonomy.

use vstd::prelude::*;

verus! {

broadcast use vstd::array::group_array_axioms;

/// An opaque caller identity: a 32-byte account value, compared by
/// equality only.
#[derive(Clone, Copy, Debug, PartialEq, Eq, Hash)]
pub struct Identity {
    pub bytes: [u8; 32],
}

/// The all-zero identity that occupies the reserved slot 0 of the
/// whitelist, so that a resolved slot of 0 always means "no assignment".
pub open spec fn is_zero_identity(id: Identity) -> bool {
    forall|i: int| 0 <= i < 32 ==> id.bytes@[i] == 0u8
}

/// Equality test on identities, byte for byte.
pub fn identity_eq(a: &Identity, b: &Identity) -> (r: bool)
    ensures
        r == (a == b),
{
    let mut i: usize = 0;
    while i < 32
        invariant
            0 <= i <= 32,
            forall|j: int| 0 <= j < i ==> a.bytes@[j] == b.bytes@[j],
        decreases 32 - i,
    {
        if a.bytes[i] != b.bytes[i] {
            return false;
        }
        i = i + 1;
    }
    proof {
        assert(a.bytes =~= b.bytes);
    }
    true
}

/// Builds the all-zero identity.
pub fn zero_address() -> (r: Identity)
    ensures
        is_zero_identity(r),
{
    Identity { bytes: [0u8; 32] }
}

/// Why an operation was refused. Every error is terminal for the call
/// that raised it and leaves the registry unchanged.
#[derive(Clone, Copy, Debug, PartialEq, Eq, Structural)]
pub enum Error {
    /// The caller lacks the required role: a non-administrator asked for
    /// an administrator-only operation, or a caller outside the
    /// whitelist tried to submit a record.
    NoPermissions,
    /// A single add was attempted on an identity already whitelisted.
    AccountAlreadyAdded,
    /// A whitelisted caller resolved to the reserved slot 0.
    MissingHackerId,
    /// The administrator asked for all records before any was submitted.
    EmptyHackerInfo,
}

/// The profile record a whitelisted identity submits: free-form string
/// fields, two of them optional. No field-level constraint is imposed.
#[derive(Debug, PartialEq, Eq)]
pub struct HackerInfo {
    pub first_name: String,
    pub last_name: String,
    pub street_address_1: String,
    pub street_address_2: Option<String>,
    pub city: String,
    pub state_region_province: String,
    pub country: String,
    pub po_box: Option<String>,
    pub email: String,
    pub discord: String,
    pub twitter: String,
}

/// Copies an optional string field.
fn clone_opt_string(s: &Option<String>) -> (r: Option<String>)
    ensures
        r == *s,
{
    match s {
        Some(inner) => Some(inner.clone()),
        None => None,
    }
}

/// Copies a record field by field; the copy equals the original.
pub fn clone_record(info: &HackerInfo) -> (r: HackerInfo)
    ensures
        r == *info,
{
    HackerInfo {
        first_name: info.first_name.clone(),
        last_name: info.last_name.clone(),
        street_address_1: info.street_address_1.clone(),
        street_address_2: clone_opt_string(&info.street_address_2),
        city: info.city.clone(),
        state_region_province: info.state_region_province.clone(),
        country: info.country.clone(),
        po_box: clone_opt_string(&info.po_box),
        email: info.email.clone(),
        discord: info.discord.clone(),
        twitter: info.twitter.clone(),
    }
}

} // verus!
