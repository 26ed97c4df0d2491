//! Contracts for the outside functions the library calls: a few
//! string primitives of std and the address and rent computations of
//! the account runtime's crate.

use vstd::prelude::*;
use vstd::utf8::{decode_utf8, valid_utf8};

verus! {

/// Relies on `String::push`: appends the given character to the end
/// of the string.
pub assume_specification[ String::push ](s: &mut String, ch: char)
    ensures
        final(s)@ == old(s)@.push(ch),
;

/// Relies on `String::from_utf8`: returns the decoded string exactly
/// when the bytes are valid UTF-8, and an error otherwise.
#[verifier::external_body]
pub(crate) fn bytes_to_string(bytes: Vec<u8>) -> (r: Option<String>)
    ensures
        r is Some <==> valid_utf8(bytes@),
        r is Some ==> r.unwrap()@ == decode_utf8(bytes@),
{
    match String::from_utf8(bytes) {
        Ok(s) => Some(s),
        Err(_) => None,
    }
}

/// The derived address, if any, that the runtime's address search
/// yields for the given authority, seed label and program identity.
/// The search is a pure computation over its three arguments.
pub uninterp spec fn pda_of(authority: Seq<u8>, seed: Seq<u8>, program_id: Seq<u8>) -> Option<
    Seq<u8>,
>;

/// Relies on `Pubkey::try_find_program_address`: a deterministic
/// search, over the seeds and the program identity alone, for a
/// 32-byte derived address with no corresponding signing key.  It
/// yields nothing only in the statistically improbable event that no
/// bump value works.
#[verifier::external_body]
pub(crate) fn derive_pda(authority: &Vec<u8>, seed: &Vec<u8>, program_id: &Vec<u8>) -> (r: Option<Vec<u8>>)
    requires
        program_id@.len() == 32,
    ensures
        r is Some <==> pda_of(authority@, seed@, program_id@) is Some,
        r matches Some(v) ==> pda_of(authority@, seed@, program_id@) == Some(v@) && v@.len() == 32,
{
    let pid = solana_program::pubkey::Pubkey::try_from(program_id.as_slice()).unwrap();
    match solana_program::pubkey::Pubkey::try_find_program_address(
        &[authority.as_slice(), seed.as_slice()],
        &pid,
    ) {
        Some((pk, _bump)) => Some(pk.to_bytes().to_vec()),
        None => None,
    }
}

/// The minimum rent-exempt funding for an account of the given byte
/// capacity, under the runtime's default rent configuration.
pub uninterp spec fn rent_min_of(size: nat) -> u64;

/// Relies on `Rent::minimum_balance` of `Rent::default()`: the
/// default rent parameters are compiled-in constants, so the result
/// depends on the capacity alone.  It panics only above the maximum
/// permitted data length of ten mebibytes, which the precondition
/// rules out.
#[verifier::external_body]
pub(crate) fn rent_minimum_balance(size: usize) -> (r: u64)
    requires
        size <= 0xA0_0000,
    ensures
        r == rent_min_of(size as nat),
{
    solana_program::rent::Rent::default().minimum_balance(size)
}

} // verus!
