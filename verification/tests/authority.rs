use anchor_compressed_notes::authority;
use anchor_compressed_notes::authority::{authority_from, PROGRAM_ID};
use anchor_compressed_notes::{Authority, NoteError};
use anchor_lang::solana_program::pubkey::Pubkey;
use std::str::FromStr;

fn tree(n: u8) -> [u8; 32] {
    let mut id = [n; 32];
    id[0] = 1;
    id[31] = n.wrapping_mul(7);
    id
}

#[test]
fn program_id_is_the_declared_address() {
    let declared = Pubkey::from_str("TCxHVHUGREfiguKx9SuJsH9Dw6WQpFsRrEfHoXnNopT").unwrap();
    assert_eq!(PROGRAM_ID, declared.to_bytes());
}

#[test]
fn derive_finds_the_program_address_of_the_tree() {
    let program = Pubkey::new_from_array(PROGRAM_ID);
    for n in 0u8..20 {
        let id = tree(n);
        let (address, bump) = Pubkey::find_program_address(&[&id], &program);
        assert_eq!(authority::derive(&id), Ok(Authority { address: address.to_bytes(), bump }));
    }
}

#[test]
fn derive_gives_an_address_that_its_seeds_create() {
    let program = Pubkey::new_from_array(PROGRAM_ID);
    for n in 0u8..20 {
        let id = tree(n);
        let found = authority::derive(&id).unwrap();
        let created = Pubkey::create_program_address(&[&id, &[found.bump]], &program).unwrap();
        assert_eq!(created.to_bytes(), found.address);
        assert!(!created.is_on_curve());
        assert_ne!(found.address, id);
    }
}

#[test]
fn derive_gives_the_same_authority_each_time() {
    let id = tree(42);
    assert_eq!(authority::derive(&id), authority::derive(&id));
}

#[test]
fn derive_tells_trees_apart() {
    let mut seen: Vec<[u8; 32]> = Vec::new();
    for n in 0u8..50 {
        let found = authority::derive(&tree(n)).unwrap();
        assert!(!seen.contains(&found.address));
        seen.push(found.address);
    }
}

#[test]
fn authority_from_passes_on_what_was_found() {
    assert_eq!(
        authority_from(Some(([8u8; 32], 253))),
        Ok(Authority { address: [8u8; 32], bump: 253 })
    );
}

#[test]
fn authority_from_nothing_is_a_failed_derivation() {
    assert_eq!(authority_from(None), Err(NoteError::AuthorityDerivationFailed));
}
