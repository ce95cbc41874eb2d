//! Authority derivation: the address that may write to a tree.
//!
//! The authority of a tree is the program-derived address of this program
//! for the one seed that is the tree's own address. It holds no secret:
//! anyone can recompute it, and it is recomputed at every call.

use crate::error::NoteError;
use anchor_lang::solana_program::pubkey::Pubkey;
use vstd::prelude::*;

verus! {

/// The address of this program, under which authorities are derived:
/// `TCxHVHUGREfiguKx9SuJsH9Dw6WQpFsRrEfHoXnNopT` in base 58.
pub const PROGRAM_ID: [u8; 32] = [
    6, 182, 157, 213, 83, 128, 213, 143, 20, 168, 131, 54, 194, 106, 126, 202,
    19, 65, 212, 61, 14, 102, 13, 156, 139, 184, 182, 214, 76, 71, 132, 144,
];

/// The program-derived address for one seed under a program, with the bump
/// seed that gives it, or `None` where no bump seed gives one.
pub uninterp spec fn program_address(seed: Seq<u8>, program_id: Seq<u8>) -> Option<([u8; 32], u8)>;

/// The authority over a tree: its address, and the bump seed that completes
/// the seeds it signs with.
#[derive(Debug, Clone, Copy, PartialEq, Eq)]
pub struct Authority {
    pub address: [u8; 32],
    pub bump: u8,
}

/// An authority as plain values.
pub struct AuthorityView {
    pub address: Seq<u8>,
    pub bump: u8,
}

impl View for Authority {
    type V = AuthorityView;

    open spec fn view(&self) -> AuthorityView {
        AuthorityView { address: self.address@, bump: self.bump }
    }
}

/// What deriving the authority over the tree at `tree_id` comes to.
pub open spec fn derivation(tree_id: Seq<u8>) -> Result<AuthorityView, NoteError> {
    match program_address(tree_id, PROGRAM_ID@) {
        Some((address, bump)) => Ok(AuthorityView { address: address@, bump }),
        None => Err(NoteError::AuthorityDerivationFailed),
    }
}

/// The outcome of a derivation as plain values.
pub open spec fn derived_view(derived: Result<Authority, NoteError>) -> Result<
    AuthorityView,
    NoteError,
> {
    match derived {
        Ok(authority) => Ok(authority@),
        Err(e) => Err(e),
    }
}

/// Calls `Pubkey::try_find_program_address` with the one seed `seed` and the
/// program `program_id`, and takes the bytes out of the address it finds.
/// The result is assumed to be `program_address` of the two: the function
/// searches the bump seeds downwards from 255 and depends on nothing but its
/// arguments.
#[verifier::external_body]
fn try_find_program_address(seed: &[u8; 32], program_id: &[u8; 32]) -> (found: Option<
    ([u8; 32], u8),
>)
    ensures
        found == program_address(seed@, program_id@),
{
    let program = Pubkey::new_from_array(*program_id);
    match Pubkey::try_find_program_address(&[seed.as_slice()], &program) {
        Some((address, bump)) => Some((address.to_bytes(), bump)),
        None => None,
    }
}

/// Turns what the search found into an authority, or into the error that
/// says there is none.
pub fn authority_from(found: Option<([u8; 32], u8)>) -> (out: Result<Authority, NoteError>)
    ensures
        match found {
            Some((address, bump)) => out == Ok::<Authority, NoteError>(Authority { address, bump }),
            None => out == Err::<Authority, NoteError>(NoteError::AuthorityDerivationFailed),
        },
{
    match found {
        Some((address, bump)) => Ok(Authority { address, bump }),
        None => Err(NoteError::AuthorityDerivationFailed),
    }
}

/// Derives the authority over the tree at `tree_id`.
///
/// Fails with `AuthorityDerivationFailed`, and only with it, exactly when no
/// bump seed gives a valid address.
pub fn derive(tree_id: &[u8; 32]) -> (out: Result<Authority, NoteError>)
    ensures
        derived_view(out) == derivation(tree_id@),
{
    authority_from(try_find_program_address(tree_id, &PROGRAM_ID))
}

} // verus!
