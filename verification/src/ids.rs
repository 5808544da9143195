//! Fresh identifiers.

use vstd::prelude::*;

verus! {

/// A fresh random identifier: `uuid::Uuid::new_v4().to_string()`.
///
/// The value is random; what is stated is only the length of the hyphenated
/// text form that the `Display` impl of `uuid::Uuid` writes (32 hex digits
/// and four hyphens).
#[verifier::external_body]
pub(crate) fn new_id() -> (s: String)
    ensures
        s@.len() == 36,
{
    uuid::Uuid::new_v4().to_string()
}

} // verus!
