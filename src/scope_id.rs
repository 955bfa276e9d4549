use vstd::prelude::*;

verus! {

/// Relies on `uuid::Uuid::new_v4` for a random version-4 identifier, and on
/// its `Display` form, which is the hyphenated rendering of 36 characters.
/// Distinct calls give distinct identifiers with overwhelming probability;
/// nothing here claims it.
#[verifier::external_body]
pub(crate) fn random_scope_id() -> (r: String)
    ensures
        r@.len() == 36,
{
    uuid::Uuid::new_v4().to_string()
}

} // verus!
