use nft_ledger::dip721::{
    dip721_approve, dip721_balance_of, dip721_burn, dip721_mint, dip721_token_metadata,
    dip721_total_supply, dip721_transfer_from, AuditEvent, CallContext,
};
use nft_ledger::ledger::Ledger;
use nft_ledger::principal::Principal;
use nft_ledger::types::{GeneralValue, NftError};

fn alice() -> Principal {
    Principal::from_slice(&[1, 1, 1])
}

fn bob() -> Principal {
    Principal::from_slice(&[2, 2, 2])
}

fn carol() -> Principal {
    Principal::from_slice(&[3, 3, 3])
}

fn ctx(caller: Principal, now: u64) -> CallContext {
    CallContext { caller, now }
}

fn attrs() -> Vec<(String, GeneralValue)> {
    vec![(String::from("class"), GeneralValue::TextContent(String::from("H")))]
}

#[test]
fn mint_then_query() {
    let mut ledger = Ledger::new();
    let mut log = Vec::new();
    let r = dip721_mint(&mut ledger, &ctx(alice(), 10), alice(), 0, attrs(), &mut log);
    assert_eq!(r, Ok(0));
    assert_eq!(dip721_total_supply(&ledger), 1);
    let md = dip721_token_metadata(&ledger, 0).ok().unwrap();
    assert!(md.owner == Some(alice()));
    assert!(md.operator == Some(alice()));
    assert_eq!(md.minted_at, 10);
    assert!(md.minted_by == alice());
    assert!(!md.is_burned);
    assert_eq!(dip721_balance_of(&ledger, alice()), Ok(1));
    assert_eq!(dip721_token_metadata(&ledger, 99).err(), Some(NftError::TokenNotFound));
    assert_eq!(log.len(), 1);
    assert_eq!(log[0].operation(), "mint");
}

#[test]
fn approve_then_transfer_by_operator() {
    let mut ledger = Ledger::new();
    let mut log = Vec::new();
    dip721_mint(&mut ledger, &ctx(alice(), 1), alice(), 0, attrs(), &mut log).unwrap();
    let r = dip721_approve(&mut ledger, &ctx(alice(), 2), bob(), 0, &mut log);
    assert_eq!(r, Ok(1));
    assert!(dip721_token_metadata(&ledger, 0).ok().unwrap().operator == Some(bob()));
    let r = dip721_transfer_from(&mut ledger, &ctx(bob(), 3), alice(), carol(), 0, &mut log);
    assert_eq!(r, Ok(2));
    let md = dip721_token_metadata(&ledger, 0).ok().unwrap();
    assert!(md.owner == Some(carol()));
    assert!(md.operator.is_none());
    assert_eq!(md.transferred_at, Some(3));
    assert_eq!(dip721_balance_of(&ledger, carol()), Ok(1));
    assert_eq!(dip721_balance_of(&ledger, alice()), Err(NftError::OwnerNotFound));
    assert_eq!(log.len(), 3);
    assert!(matches!(log[2], AuditEvent::TransferFrom { .. }));
}

#[test]
fn self_transfer_is_refused() {
    let mut ledger = Ledger::new();
    let mut log = Vec::new();
    dip721_mint(&mut ledger, &ctx(alice(), 1), alice(), 0, attrs(), &mut log).unwrap();
    let r = dip721_transfer_from(&mut ledger, &ctx(alice(), 2), alice(), alice(), 0, &mut log);
    assert_eq!(r, Err(NftError::UnauthorizedOwner));
    assert_eq!(log.len(), 1);
    let md = dip721_token_metadata(&ledger, 0).ok().unwrap();
    assert!(md.owner == Some(alice()));
    assert!(md.operator == Some(alice()));
    assert!(md.transferred_at.is_none());
    // the counter did not move
    assert_eq!(dip721_burn(&mut ledger, &ctx(alice(), 3), 0, &mut log), Ok(1));
}

#[test]
fn second_mint_of_same_identifier_fails() {
    let mut ledger = Ledger::new();
    let mut log = Vec::new();
    dip721_mint(&mut ledger, &ctx(alice(), 1), alice(), 7, attrs(), &mut log).unwrap();
    let r = dip721_mint(&mut ledger, &ctx(bob(), 2), bob(), 7, vec![], &mut log);
    assert_eq!(r, Err(NftError::ExistedNFT));
    let md = dip721_token_metadata(&ledger, 7).ok().unwrap();
    assert!(md.owner == Some(alice()));
    assert_eq!(md.minted_at, 1);
    assert_eq!(md.properties.len(), 1);
    assert_eq!(dip721_total_supply(&ledger), 1);
    assert_eq!(log.len(), 1);
}

#[test]
fn burned_token_is_terminal() {
    let mut ledger = Ledger::new();
    let mut log = Vec::new();
    dip721_mint(&mut ledger, &ctx(alice(), 1), alice(), 0, attrs(), &mut log).unwrap();
    assert_eq!(dip721_burn(&mut ledger, &ctx(alice(), 2), 0, &mut log), Ok(1));
    let md = dip721_token_metadata(&ledger, 0).ok().unwrap();
    assert!(md.is_burned);
    assert!(md.owner.is_none());
    assert!(md.operator.is_none());
    assert_eq!(md.burned_at, Some(2));
    assert_eq!(
        dip721_transfer_from(&mut ledger, &ctx(alice(), 3), alice(), bob(), 0, &mut log),
        Err(NftError::OwnerNotFound)
    );
    assert_eq!(dip721_approve(&mut ledger, &ctx(alice(), 3), bob(), 0, &mut log), Err(NftError::OwnerNotFound));
    assert_eq!(dip721_burn(&mut ledger, &ctx(alice(), 3), 0, &mut log), Err(NftError::OwnerNotFound));
    assert_eq!(dip721_total_supply(&ledger), 1);
    assert_eq!(dip721_balance_of(&ledger, alice()), Err(NftError::OwnerNotFound));
    assert_eq!(log.len(), 2);
}

#[test]
fn sequence_numbers_count_successes_only() {
    let mut ledger = Ledger::new();
    let mut log = Vec::new();
    let mut seen = Vec::new();
    seen.push(dip721_mint(&mut ledger, &ctx(alice(), 1), alice(), 0, attrs(), &mut log));
    seen.push(dip721_mint(&mut ledger, &ctx(alice(), 1), alice(), 0, attrs(), &mut log));
    seen.push(dip721_mint(&mut ledger, &ctx(alice(), 1), bob(), 1, attrs(), &mut log));
    seen.push(dip721_approve(&mut ledger, &ctx(alice(), 1), alice(), 0, &mut log));
    seen.push(dip721_approve(&mut ledger, &ctx(alice(), 1), carol(), 0, &mut log));
    seen.push(dip721_transfer_from(&mut ledger, &ctx(bob(), 1), alice(), bob(), 0, &mut log));
    seen.push(dip721_transfer_from(&mut ledger, &ctx(carol(), 1), alice(), bob(), 0, &mut log));
    seen.push(dip721_burn(&mut ledger, &ctx(bob(), 1), 1, &mut log));
    let oks: Vec<u64> = seen.iter().filter_map(|r| r.ok()).collect();
    assert_eq!(oks, vec![0, 1, 2, 3, 4]);
    assert_eq!(seen[1], Err(NftError::ExistedNFT));
    assert_eq!(seen[3], Err(NftError::SelfApprove));
    assert_eq!(seen[5], Err(NftError::UnauthorizedOperator));
    assert_eq!(log.len(), 5);
}

#[test]
fn owner_index_follows_records() {
    let mut ledger = Ledger::new();
    let mut log = Vec::new();
    for t in 0..4u64 {
        dip721_mint(&mut ledger, &ctx(alice(), 1), alice(), t, attrs(), &mut log).unwrap();
    }
    dip721_transfer_from(&mut ledger, &ctx(alice(), 2), alice(), bob(), 1, &mut log).unwrap();
    dip721_transfer_from(&mut ledger, &ctx(alice(), 2), alice(), bob(), 3, &mut log).unwrap();
    dip721_burn(&mut ledger, &ctx(alice(), 3), 0, &mut log).unwrap();
    let mut a = ledger.owner_token_identifiers(&alice()).ok().unwrap();
    a.sort();
    assert_eq!(a, vec![2]);
    let mut b = ledger.owner_token_identifiers(&bob()).ok().unwrap();
    b.sort();
    assert_eq!(b, vec![1, 3]);
    assert_eq!(dip721_balance_of(&ledger, bob()), Ok(2));
    assert_eq!(ledger.owner_token_identifiers(&carol()), Err(NftError::OwnerNotFound));
    assert_eq!(dip721_total_supply(&ledger), 4);
}

#[test]
fn approve_errors_in_order() {
    let mut ledger = Ledger::new();
    let mut log = Vec::new();
    assert_eq!(dip721_approve(&mut ledger, &ctx(alice(), 1), bob(), 0, &mut log), Err(NftError::OwnerNotFound));
    dip721_mint(&mut ledger, &ctx(alice(), 1), alice(), 0, attrs(), &mut log).unwrap();
    assert_eq!(dip721_approve(&mut ledger, &ctx(bob(), 1), carol(), 0, &mut log), Err(NftError::UnauthorizedOwner));
    assert_eq!(dip721_approve(&mut ledger, &ctx(bob(), 1), bob(), 0, &mut log), Err(NftError::SelfApprove));
}

#[test]
fn transfer_errors_in_order() {
    let mut ledger = Ledger::new();
    let mut log = Vec::new();
    assert_eq!(
        dip721_transfer_from(&mut ledger, &ctx(alice(), 1), alice(), bob(), 9, &mut log),
        Err(NftError::OwnerNotFound)
    );
    dip721_mint(&mut ledger, &ctx(alice(), 1), alice(), 9, attrs(), &mut log).unwrap();
    assert_eq!(
        dip721_transfer_from(&mut ledger, &ctx(alice(), 1), bob(), carol(), 9, &mut log),
        Err(NftError::UnauthorizedOwner)
    );
    assert_eq!(
        dip721_transfer_from(&mut ledger, &ctx(bob(), 1), alice(), carol(), 9, &mut log),
        Err(NftError::UnauthorizedOperator)
    );
    dip721_transfer_from(&mut ledger, &ctx(alice(), 1), alice(), bob(), 9, &mut log).unwrap();
    assert_eq!(log.len(), 2);
    assert_eq!(
        dip721_transfer_from(&mut ledger, &ctx(bob(), 2), bob(), carol(), 9, &mut log),
        Err(NftError::OperatorNotFound)
    );
    assert_eq!(
        dip721_transfer_from(&mut ledger, &ctx(bob(), 2), alice(), carol(), 9, &mut log),
        Err(NftError::UnauthorizedOwner)
    );
    assert_eq!(log.len(), 2);
    let md = dip721_token_metadata(&ledger, 9).ok().unwrap();
    assert!(md.owner == Some(bob()));
    assert_eq!(md.transferred_at, Some(1));
}

#[test]
fn burn_errors_in_order() {
    let mut ledger = Ledger::new();
    let mut log = Vec::new();
    assert_eq!(dip721_burn(&mut ledger, &ctx(alice(), 1), 0, &mut log), Err(NftError::OwnerNotFound));
    dip721_mint(&mut ledger, &ctx(alice(), 1), alice(), 0, attrs(), &mut log).unwrap();
    assert_eq!(dip721_burn(&mut ledger, &ctx(bob(), 1), 0, &mut log), Err(NftError::UnauthorizedOwner));
    dip721_transfer_from(&mut ledger, &ctx(alice(), 1), alice(), bob(), 0, &mut log).unwrap();
    assert_eq!(dip721_burn(&mut ledger, &ctx(bob(), 1), 0, &mut log), Err(NftError::OperatorNotFound));
}

#[test]
fn audit_event_names() {
    let e = AuditEvent::Approve { caller: alice(), operator: bob(), token_identifier: 1 };
    assert_eq!(e.operation(), "approve");
    let e = AuditEvent::Burn { caller: alice(), token_identifier: 1 };
    assert_eq!(e.operation(), "burn");
    let e = AuditEvent::TransferFrom { caller: alice(), owner: alice(), to: bob(), token_identifier: 1 };
    assert_eq!(e.operation(), "transferFrom");
}

#[test]
fn metadata_can_be_edited_in_place() {
    let mut ledger = Ledger::new();
    ledger.metadata_mut().name = Some(String::from("Elements"));
    ledger.metadata_mut().upgraded_at = 9;
    assert_eq!(ledger.metadata().name, Some(String::from("Elements")));
    assert_eq!(ledger.metadata().upgraded_at, 9);
    assert_eq!(ledger.metadata().created_at, 0);
}

#[test]
fn init_adds_custodians_once() {
    let mut ledger = Ledger::new();
    nft_ledger::dip721::dip721_init(&mut ledger, &ctx(alice(), 42), Some(nft_ledger::types::InitArgs {
        name: Some(String::from("N")),
        logo: Some(String::from("L")),
        symbol: None,
        custodians: Some(vec![bob(), alice(), bob()]),
        cap: None,
    }));
    let m = ledger.metadata();
    assert_eq!(m.custodians.len(), 2);
    assert_eq!(m.name, Some(String::from("N")));
    assert_eq!(m.logo, Some(String::from("L")));
    assert_eq!(m.created_at, 42);
    assert_eq!(m.upgraded_at, 42);
    nft_ledger::dip721::dip721_init(&mut ledger, &ctx(carol(), 43), None);
    assert_eq!(ledger.metadata().custodians.len(), 3);
    assert_eq!(ledger.metadata().name, Some(String::from("N")));
}
