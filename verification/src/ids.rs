use vstd::prelude::*;

verus! {

/// Relies on `ulid::Ulid::new` and its `Display` encoding: a ULID renders
/// as exactly 26 Crockford base32 characters (`ulid::ULID_LEN`).  The value
/// depends on the clock and on randomness, so only the length is stated;
/// in particular no uniqueness is promised here, and the engine's contracts
/// do not assume it.
#[verifier::external_body]
pub(crate) fn mint_id() -> (id: String)
    ensures
        id@.len() == 26,
{
    ulid::Ulid::new().to_string()
}

} // verus!
