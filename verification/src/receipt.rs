//! Receipt addresses: the place where the marker of one voter's vote for one
//! submission is kept. The place is computed from the voter and the submission
//! alone, so that anyone can tell in advance where it lies.

use crate::address::Address;
use anchor_lang::prelude::Pubkey;
use vstd::prelude::*;

verus! {

/// The marker that a voter has voted for a submission. It holds nothing: that
/// it lies at the receipt address of the two is all it says.
#[derive(Clone, Copy, Debug, PartialEq, Eq, Structural)]
pub struct VoteReceipt {}

/// Storage taken by one receipt: its type tag.
pub const RECEIPT_SPACE: u64 = 8;

/// The identity of the contest program, under which all receipt addresses are derived.
pub const PROGRAM_ID: [u8; 32] = [
    19, 33, 48, 238, 106, 97, 142, 116, 3, 110, 18, 91, 90, 197, 200, 102,
    8, 48, 52, 226, 249, 201, 26, 79, 111, 196, 40, 96, 225, 61, 86, 181,
];

/// What `Pubkey::try_find_program_address` returns for the two seeds `first`
/// and `second` under the program `program`: the program address of the seeds
/// with the bump seed that gave it, or `None` where it finds no address.
pub uninterp spec fn program_address(first: Seq<u8>, second: Seq<u8>, program: Seq<u8>) -> Option<(Seq<u8>, u8)>;

/// Calls `Pubkey::try_find_program_address` of anchor_lang (the `Pubkey` of its
/// prelude, defined in solana-program) with the seeds `[first, second]` and the
/// program `program`.
///
/// Not proved, but taken from its source: the call hashes the seeds, a bump
/// seed, the program and a fixed marker with SHA-256, trying bump seeds from
/// 255 downwards, and returns the first digest that is no point of the
/// ed25519 curve, or `None` when it has found none. It reads nothing but its
/// arguments and does not panic. The contract claims only that: the result is
/// a function of the three arguments, here named `program_address`.
#[verifier::external_body]
fn find_program_address(first: &Address, second: &Address, program: &Address) -> (found: Option<(Address, u8)>)
    ensures
        found matches Some((a, bump)) ==> program_address(first@, second@, program@) == Some((a@, bump)),
        found is None ==> program_address(first@, second@, program@) is None,
{
    let seeds: [&[u8]; 2] = [&first.bytes, &second.bytes];
    let program = Pubkey::new_from_array(program.bytes);
    match Pubkey::try_find_program_address(&seeds, &program) {
        Some((key, bump)) => Some((Address { bytes: key.to_bytes() }, bump)),
        None => None,
    }
}

/// The receipt address of `voter` for `submission`, where one exists.
pub open spec fn receipt_address_of(voter: Seq<u8>, submission: Seq<u8>) -> Option<Seq<u8>> {
    match program_address(voter, submission, PROGRAM_ID@) {
        Some((a, _)) => Some(a),
        None => None,
    }
}

/// Derives the receipt address of `voter` for `submission`.
pub fn receipt_address(voter: &Address, submission: &Address) -> (derived: Option<Address>)
    ensures
        derived matches Some(a) ==> receipt_address_of(voter@, submission@) == Some(a@),
        derived is None ==> receipt_address_of(voter@, submission@) is None,
{
    let program = Address::new(PROGRAM_ID);
    match find_program_address(voter, submission, &program) {
        Some((a, _)) => Some(a),
        None => None,
    }
}

} // verus!
