//! Identifiers of monitors and machines.
//!
//! An identifier is a UUID held as its 128-bit value (`Uuid::as_u128`).
//! Fresh and name-based identifiers come from the `uuid` crate.

use vstd::prelude::*;

verus! {

/// The UUID that `Uuid::new_v5` derives from `Uuid::NAMESPACE_DNS` and the
/// UTF-8 bytes of a name, as a 128-bit value.
pub uninterp spec fn uuid_v5_dns(name: Seq<char>) -> u128;

/// What `Uuid::parse_str` yields for a text: the UUID's 128-bit value, or
/// `None` where the text is no UUID.
pub uninterp spec fn uuid_parse(text: Seq<char>) -> Option<u128>;

/// A fresh random identifier from `uuid::Uuid::new_v4`.
/// Nothing is claimed of the value: it is random.
#[verifier::external_body]
pub(crate) fn random_id() -> (id: u128) {
    uuid::Uuid::new_v4().as_u128()
}

/// The name-based identifier of `name`: `uuid::Uuid::new_v5` under the DNS
/// namespace, over the name's UTF-8 bytes. The result is a function of the
/// name alone.
#[verifier::external_body]
pub(crate) fn name_based_id(name: &str) -> (id: u128)
    ensures
        id == uuid_v5_dns(name@),
{
    uuid::Uuid::new_v5(&uuid::Uuid::NAMESPACE_DNS, name.as_bytes()).as_u128()
}

/// `uuid::Uuid::parse_str` on `text`: the UUID's value, or `None` where the
/// parser refuses the text. The result is a function of the text alone.
#[verifier::external_body]
pub(crate) fn parse_id(text: &str) -> (id: Option<u128>)
    ensures
        id == uuid_parse(text@),
{
    match uuid::Uuid::parse_str(text) {
        Ok(u) => Some(u.as_u128()),
        Err(_) => None,
    }
}

} // verus!
