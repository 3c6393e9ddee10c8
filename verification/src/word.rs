//! The 256-bit unsigned word of the chain, as four 64-bit limbs.

use vstd::prelude::*;
use crate::numeral::{all_digits, is_canonical, numeral_value};
use ethers::abi::ethereum_types::FromDecStrErr;
use ethers::types::U256;

verus! {

#[verifier::external_type_specification]
#[verifier::external_body]
pub struct ExFromDecStrErr(FromDecStrErr);

/// An unsigned integer below 2^256. `limbs[0]` is the least significant
/// 64 bits.
#[derive(Clone, Copy, Debug, PartialEq, Eq)]
pub struct Uint256 {
    pub limbs: [u64; 4],
}

/// 2^256, the first number that a word cannot hold.
pub open spec fn word_bound() -> nat {
    0x1_0000_0000_0000_0000_0000_0000_0000_0000_0000_0000_0000_0000_0000_0000_0000_0000nat
}

/// The number that four limbs denote, least significant limb first.
pub open spec fn limbs_value(limbs: Seq<u64>) -> nat {
    (limbs[0] as nat) + (limbs[1] as nat) * 0x1_0000_0000_0000_0000nat + (limbs[2] as nat)
        * 0x1_0000_0000_0000_0000_0000_0000_0000_0000nat + (limbs[3] as nat)
        * 0x1_0000_0000_0000_0000_0000_0000_0000_0000_0000_0000_0000_0000nat
}

/// The number that a run of bytes denotes, most significant byte first.
pub open spec fn big_endian_value(bytes: Seq<u8>) -> nat
    decreases bytes.len(),
{
    if bytes.len() == 0 {
        0
    } else {
        big_endian_value(bytes.drop_last()) * 256 + bytes.last() as nat
    }
}

/// `U256`'s `Display`, through `to_string`: the word written in decimal,
/// without leading zeros, `"0"` for zero.
#[verifier::external_body]
fn word_to_decimal(limbs: &[u64; 4]) -> (text: String)
    ensures
        is_canonical(text@),
        numeral_value(text@) == limbs_value(limbs@),
{
    U256(*limbs).to_string()
}

/// `U256::from_dec_str`: reads a run of decimal digits. It succeeds exactly
/// when every character is a digit and the number is below 2^256; the empty
/// string gives zero.
#[verifier::external_body]
fn word_from_decimal(text: &str) -> (result: Result<[u64; 4], FromDecStrErr>)
    ensures
        match result {
            Ok(limbs) => all_digits(text@) && limbs_value(limbs@) == numeral_value(text@),
            Err(_) => !all_digits(text@) || numeral_value(text@) >= word_bound(),
        },
{
    match U256::from_dec_str(text) {
        Ok(word) => Ok(word.0),
        Err(e) => Err(e),
    }
}

/// `U256::from_big_endian`: reads at most 32 bytes as a number, most
/// significant byte first. It panics on a longer slice.
#[verifier::external_body]
fn word_from_big_endian(bytes: &[u8]) -> (limbs: [u64; 4])
    requires
        bytes@.len() <= 32,
    ensures
        limbs_value(limbs@) == big_endian_value(bytes@),
{
    U256::from_big_endian(bytes).0
}

impl View for Uint256 {
    type V = nat;

    open spec fn view(&self) -> nat {
        limbs_value(self.limbs@)
    }
}

impl Uint256 {
    /// The word with the given limbs, least significant first.
    pub fn from_limbs(limbs: [u64; 4]) -> (word: Uint256)
        ensures
            word.limbs == limbs,
    {
        Uint256 { limbs }
    }

    /// The word that a 64-bit number extends to.
    pub fn from_u64(n: u64) -> (word: Uint256)
        ensures
            word@ == n,
    {
        Uint256 { limbs: [n, 0, 0, 0] }
    }

    /// Reads 32 bytes as a number, most significant byte first.
    pub fn from_big_endian(bytes: &[u8; 32]) -> (word: Uint256)
        ensures
            word@ == big_endian_value(bytes@),
    {
        Uint256 { limbs: word_from_big_endian(bytes.as_slice()) }
    }

    /// The word in decimal, without leading zeros.
    pub fn to_decimal(&self) -> (text: String)
        ensures
            is_canonical(text@),
            numeral_value(text@) == self@,
    {
        word_to_decimal(&self.limbs)
    }

    /// Reads a run of decimal digits. `None` when a character is no digit or
    /// the number does not fit.
    pub fn from_decimal(text: &str) -> (word: Option<Uint256>)
        ensures
            word is Some <==> all_digits(text@) && numeral_value(text@) < word_bound(),
            word is Some ==> word->0@ == numeral_value(text@),
    {
        match word_from_decimal(text) {
            Ok(limbs) => Some(Uint256 { limbs }),
            Err(_) => None,
        }
    }
}

} // verus!
