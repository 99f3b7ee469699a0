//! Trusted declarations for the outside functions the library calls:
//! CIDR parsing, DNS record-type parsing, and regular-expression matching,
//! together with two conversions between strings and character vectors.

use vstd::prelude::*;

verus! {

/// What `ipnet::IpNet::from_str` returns for a string: `None` when the
/// string is not `addr/prefix` of either IP family; otherwise the family
/// flag (`true` for v6), the address as written, and the prefix length.
pub uninterp spec fn cidr_of(s: Seq<char>) -> Option<(bool, u128, u8)>;

/// Relies on ipnet's `IpNet::from_str`: it parses `addr/prefix` of either
/// family and rejects a prefix length above the family's address width,
/// so the returned prefix is bounded and a v4 address fits in 32 bits.
#[verifier::external_body]
pub(crate) fn parse_cidr(s: &str) -> (r: Option<(bool, u128, u8)>)
    ensures
        r == cidr_of(s@),
        match r {
            Some(c) => if c.0 {
                c.2 <= 128
            } else {
                c.2 <= 32 && c.1 <= 0xffff_ffffu128
            },
            None => true,
        },
{
    match s.parse::<ipnet::IpNet>() {
        Ok(ipnet::IpNet::V4(n)) => Some((false, u32::from(n.addr()) as u128, n.prefix_len())),
        Ok(ipnet::IpNet::V6(n)) => Some((true, u128::from(n.addr()), n.prefix_len())),
        Err(_) => None,
    }
}

/// What hickory's `RecordType::from_str` yields for a string, as the wire
/// code of the record type (its `u16` conversion), or `None` when the
/// string names no record type.
pub uninterp spec fn record_type_code_of(s: Seq<char>) -> Option<u16>;

/// Relies on hickory_proto's `RecordType::from_str` and on its `u16`
/// conversion; both depend on the string alone. `from_str` asserts, in
/// builds with debug assertions, that the string holds no ASCII
/// lowercase letter, so the contract admits only such strings (a
/// lowercase string could match no record-type name anyway).
#[verifier::external_body]
pub(crate) fn parse_record_type(s: &str) -> (r: Option<u16>)
    requires
        crate::text::no_ascii_lower(s@),
    ensures
        r == record_type_code_of(s@),
{
    match s.parse::<hickory_proto::rr::RecordType>() {
        Ok(rt) => Some(u16::from(rt)),
        Err(_) => None,
    }
}

/// What matching a regular expression against a text yields: `None` when
/// the pattern is not a valid regex, otherwise whether it matches. The
/// result depends on the pattern and the text alone.
pub uninterp spec fn regex_verdict(pat: Seq<char>, text: Seq<char>) -> Option<bool>;

/// Relies on regex's `Regex::new` and `Regex::is_match`.
#[verifier::external_body]
pub(crate) fn regex_match(pat: &str, text: &str) -> (r: Option<bool>)
    ensures
        r == regex_verdict(pat@, text@),
{
    match regex::Regex::new(pat) {
        Ok(re) => Some(re.is_match(text)),
        Err(_) => None,
    }
}

/// Relies on `str::chars`: a string slice is its sequence of characters.
#[verifier::external_body]
pub(crate) fn chars_of(s: &str) -> (v: Vec<char>)
    ensures
        v@ == s@,
{
    s.chars().collect()
}

/// Relies on `FromIterator<char> for String`: collecting characters
/// yields the string of exactly those characters.
#[verifier::external_body]
pub(crate) fn string_from_chars(v: &[char]) -> (s: String)
    ensures
        s@ == v@,
{
    v.iter().collect()
}

} // verus!
