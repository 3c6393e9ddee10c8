//! Account and contract addresses, read from hexadecimal text.

use vstd::prelude::*;
use crate::error::CoreError;
use ethers::types::H160;

verus! {

/// The 20 bytes that name an account or a contract.
#[derive(Clone, Copy, Debug, PartialEq, Eq)]
pub struct Address {
    pub bytes: [u8; 20],
}

/// Whether a character is passed over between hexadecimal digits: a space,
/// a tab, a carriage return or a line feed.
pub open spec fn is_hex_blank(c: char) -> bool {
    c == ' ' || c == '\t' || c == '\r' || c == '\n'
}

/// Whether a character is a hexadecimal digit, in either case.
pub open spec fn is_hex_digit(c: char) -> bool {
    ('0' <= c <= '9') || ('a' <= c <= 'f') || ('A' <= c <= 'F')
}

/// The number that a hexadecimal digit stands for.
pub open spec fn hex_value(c: char) -> nat {
    if '0' <= c <= '9' {
        (c as int - '0' as int) as nat
    } else if 'a' <= c <= 'f' {
        (c as int - 'a' as int + 10) as nat
    } else {
        (c as int - 'A' as int + 10) as nat
    }
}

/// The text without a leading `0x`.
pub open spec fn without_hex_prefix(s: Seq<char>) -> Seq<char> {
    if s.len() >= 2 && s[0] == '0' && s[1] == 'x' {
        s.skip(2)
    } else {
        s
    }
}

/// The characters that count: those after the prefix that are not blank.
pub open spec fn hex_payload(s: Seq<char>) -> Seq<char> {
    without_hex_prefix(s).filter(|c: char| !is_hex_blank(c))
}

/// Whether the text is an address: 40 hexadecimal digits, which `0x` may
/// precede and among which blanks may stand.
pub open spec fn is_address_text(s: Seq<char>) -> bool {
    &&& hex_payload(s).len() == 40
    &&& forall|i: int| 0 <= i < 40 ==> is_hex_digit(#[trigger] hex_payload(s)[i])
}

/// The bytes that the text of an address denotes: each pair of digits is one
/// byte, the first digit of the pair its upper half.
pub open spec fn address_bytes(s: Seq<char>) -> Seq<u8> {
    Seq::new(
        20,
        |i: int| (hex_value(hex_payload(s)[2 * i]) * 16 + hex_value(hex_payload(s)[2 * i + 1])) as u8,
    )
}

/// `H160`'s `FromStr`, through `str::parse`: drops one leading `0x`, passes
/// over blanks, and reads exactly 40 hexadecimal digits as 20 bytes. Any
/// other text is refused.
#[verifier::external_body]
fn address_from_text(text: &str) -> (bytes: Option<[u8; 20]>)
    ensures
        match bytes {
            Some(b) => is_address_text(text@) && b@ == address_bytes(text@),
            None => !is_address_text(text@),
        },
{
    match text.parse::<H160>() {
        Ok(address) => Some(address.0),
        Err(_) => None,
    }
}

/// Reads an address from hexadecimal text.
pub fn parse_address(text: &str) -> (result: Result<Address, CoreError>)
    ensures
        match result {
            Ok(address) => is_address_text(text@) && address.bytes@ == address_bytes(text@),
            Err(e) => !is_address_text(text@) && e == CoreError::InvalidAddressFormat,
        },
{
    match address_from_text(text) {
        Some(bytes) => Ok(Address { bytes }),
        None => Err(CoreError::InvalidAddressFormat),
    }
}

} // verus!
