//! Network addresses as plain values, and the classification of endpoint text.

use vstd::prelude::*;

verus! {

/// An IP address, held as the integer of its octets in network order.
#[derive(Clone, Copy, Debug, PartialEq, Eq, Hash, Structural)]
pub enum IpAddress {
    V4(u32),
    V6(u128),
}

/// The address that the text `s` denotes when read as an IP literal, if any.
pub uninterp spec fn ip_literal_of(s: Seq<char>) -> Option<IpAddress>;

/// Relies on `<core::net::IpAddr as FromStr>::from_str`: the address that the
/// text spells, which depends on the text alone; empty text is no address.
#[verifier::external_body]
pub(crate) fn parse_ip_literal(s: &str) -> (r: Option<IpAddress>)
    ensures
        r == ip_literal_of(s@),
        s@.len() == 0 ==> r is None,
{
    match s.parse::<core::net::IpAddr>() {
        Ok(core::net::IpAddr::V4(a)) => Some(IpAddress::V4(u32::from(a))),
        Ok(core::net::IpAddr::V6(a)) => Some(IpAddress::V6(u128::from(a))),
        Err(_) => None,
    }
}

} // verus!
