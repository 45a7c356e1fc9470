use nft_ledger::canister::{new_token_id, restore_tid_info, tid_info, Canister, TokenIdAllocator};
use nft_ledger::dip721::{dip721_balance_of, dip721_mint, dip721_token_metadata, CallContext};
use nft_ledger::ledger::{Ledger, RestoreError};
use nft_ledger::principal::Principal;
use nft_ledger::prop::{
    add_token, init_prop_info, prop_info, properties_for_class, restore_prop_info, tokens, with,
    PropMetadata, TokenTexts,
};
use nft_ledger::token_identifier::{encode_token_id, CanisterId, TokenIndex};
use nft_ledger::types::{
    ApproveRequest, GeneralValue, InitArgs, MintRequest, NftError, TransferRequest,
    TransferRequestV2, TransferResponse, TransferResponseDetails, User,
};

fn alice() -> Principal {
    Principal::from_slice(&[1, 1, 1])
}

fn bob() -> Principal {
    Principal::from_slice(&[2, 2, 2])
}

fn carol() -> Principal {
    Principal::from_slice(&[3, 3, 3])
}

fn cid() -> CanisterId {
    CanisterId(Principal::from_slice(&[0, 0, 0, 0, 0, 0x30, 0x00, 0x4e, 0x01, 0x01]))
}

fn ctx(caller: Principal, now: u64) -> CallContext {
    CallContext { caller, now }
}

fn catalog() -> Vec<PropMetadata> {
    vec![
        PropMetadata::from_parts(String::from("H"), String::from("hydrogen"), String::from("h.jpg")),
        PropMetadata::from_parts(String::from("He"), String::from("helium"), String::from("he.jpg")),
        PropMetadata::from_parts(String::from("He"), String::from("second"), String::from("x.jpg")),
    ]
}

fn request(to: Principal, class: &str) -> MintRequest {
    MintRequest { to: User::principal(to), metadata: None, class: String::from(class) }
}

fn text(v: &GeneralValue) -> String {
    match v {
        GeneralValue::TextContent(s) => s.clone(),
        _ => panic!("not text"),
    }
}

#[test]
fn allocator_hands_out_in_turn() {
    let mut tid = TokenIdAllocator::new();
    assert_eq!(new_token_id(&mut tid), 1);
    assert_eq!(new_token_id(&mut tid), 2);
    assert_eq!(tid_info(&tid), 3);
    restore_tid_info(&mut tid, u32::MAX);
    assert_eq!(new_token_id(&mut tid), u32::MAX);
    assert_eq!(new_token_id(&mut tid), 0);
}

#[test]
fn class_properties_come_from_first_template() {
    let props = catalog();
    let v = properties_for_class(&props, &String::from("He"));
    assert_eq!(v.len(), 3);
    assert_eq!(v[0].0, "class");
    assert_eq!(text(&v[0].1), "He");
    assert_eq!(v[1].0, "desc");
    assert_eq!(text(&v[1].1), "helium");
    assert_eq!(v[2].0, "imageUri");
    assert_eq!(text(&v[2].1), "he.jpg");
    assert!(properties_for_class(&props, &String::from("Li")).is_empty());
    assert!(properties_for_class(&vec![], &String::from("H")).is_empty());
}

#[test]
fn catalog_copy_and_restore() {
    let props = catalog();
    let copy = prop_info(&props);
    assert_eq!(copy.len(), 3);
    assert_eq!(copy[2].desc(), "second");
    assert_eq!(copy[0].image_uri(), "h.jpg");
    assert_eq!(copy[1].class(), "He");
    let mut restored = vec![PropMetadata::from_parts(String::from("Li"), String::new(), String::new())];
    restore_prop_info(&mut restored, copy);
    assert_eq!(restored.len(), 4);
    assert_eq!(restored[0].class(), "Li");
    assert_eq!(restored[3].desc(), "second");
    let mut fresh = Vec::new();
    init_prop_info(&mut fresh, catalog());
    assert_eq!(fresh.len(), 3);
    assert_eq!(with(&fresh, |p: &Vec<PropMetadata>| p.len()), 3);
}

#[test]
fn token_texts_keep_latest() {
    let mut texts = TokenTexts::new();
    assert_eq!(tokens(&texts, &1), "");
    add_token(&mut texts, &1, &String::from("a"));
    add_token(&mut texts, &2, &String::from("b"));
    add_token(&mut texts, &1, &String::from("c"));
    assert_eq!(tokens(&texts, &1), "c");
    assert_eq!(tokens(&texts, &2), "b");
    assert_eq!(tokens(&texts, &3), "");
}

#[test]
fn mint_internal_uses_catalog_and_records_text() {
    let mut c = Canister::new(cid());
    c.props = catalog();
    let r = c.mint_internal(&ctx(alice(), 5), &request(bob(), "H"));
    assert_eq!(r, Ok(1));
    assert_eq!(c.tid.next, 2);
    let md = dip721_token_metadata(&c.ledger, 1).ok().unwrap();
    assert!(md.owner == Some(bob()));
    assert!(md.minted_by == alice());
    assert_eq!(md.properties.len(), 3);
    assert_eq!(text(&md.properties[1].1), "hydrogen");
    assert_eq!(tokens(&c.texts, &1), encode_token_id(&cid(), &TokenIndex(1)));
    assert_eq!(c.log.len(), 1);
}

#[test]
fn mint_internal_to_address_goes_to_anonymous() {
    let mut c = Canister::new(cid());
    let req = MintRequest { to: User::address(String::from("abcd")), metadata: None, class: String::from("X") };
    assert_eq!(c.mint_internal(&ctx(alice(), 5), &req), Ok(1));
    let md = dip721_token_metadata(&c.ledger, 1).ok().unwrap();
    assert!(md.owner == Some(Principal::anonymous()));
    assert!(md.properties.is_empty());
}

#[test]
fn mint_internal_refuses_taken_index() {
    let mut c = Canister::new(cid());
    dip721_mint(&mut c.ledger, &ctx(alice(), 1), alice(), 1, vec![], &mut c.log).unwrap();
    assert_eq!(c.mint_internal(&ctx(alice(), 2), &request(bob(), "H")), Err(NftError::ExistedNFT));
    assert_eq!(c.tid.next, 1);
    assert_eq!(c.log.len(), 1);
    assert_eq!(tokens(&c.texts, &1), "");
}

#[test]
fn batch_mint_mints_each() {
    let mut c = Canister::new(cid());
    let r = c.batch_mint(&ctx(alice(), 1), &request(bob(), "H"), Some(3));
    assert_eq!(r, Ok(vec![1, 2, 3]));
    assert_eq!(c.tid.next, 4);
    assert_eq!(c.ledger.tokens_count(), 3);
    assert_eq!(c.batch_mint(&ctx(alice(), 1), &request(bob(), "H"), None), Ok(vec![]));
}

#[test]
fn batch_mint_is_all_or_nothing() {
    let mut c = Canister::new(cid());
    dip721_mint(&mut c.ledger, &ctx(alice(), 1), alice(), 3, vec![], &mut c.log).unwrap();
    let r = c.batch_mint(&ctx(alice(), 1), &request(bob(), "H"), Some(3));
    assert_eq!(r, Err(NftError::ExistedNFT));
    assert_eq!(c.tid.next, 1);
    assert_eq!(c.ledger.tokens_count(), 1);
    assert_eq!(c.log.len(), 1);
}

fn transfer_request(from: Principal, to: Principal, token: String) -> TransferRequest {
    TransferRequest {
        amount: 1,
        from: User::principal(from),
        memo: vec![],
        notify: false,
        subaccount: None,
        to: User::principal(to),
        token,
    }
}

#[test]
fn transfer_by_text_identifier() {
    let mut c = Canister::new(cid());
    c.mint_internal(&ctx(alice(), 1), &request(alice(), "H")).unwrap();
    let token = encode_token_id(&cid(), &TokenIndex(1));
    match c.transfer_internal(&ctx(alice(), 2), &transfer_request(bob(), carol(), token.clone())) {
        TransferResponse::err(TransferResponseDetails::Unauthorized(a)) => {
            assert_eq!(a, nft_ledger::types::pid2aid(&bob()))
        },
        _ => panic!("expected unauthorized"),
    }
    match c.transfer_internal(&ctx(carol(), 2), &transfer_request(alice(), carol(), token.clone())) {
        TransferResponse::err(TransferResponseDetails::Other(m)) => assert_eq!(m, "Unkown Error"),
        _ => panic!("expected other"),
    }
    assert_eq!(c.log.len(), 1);
    match c.transfer_internal(&ctx(alice(), 2), &transfer_request(alice(), bob(), token.clone())) {
        TransferResponse::ok(n) => assert_eq!(n, 1),
        _ => panic!("transfer failed"),
    }
    let md = dip721_token_metadata(&c.ledger, 1).ok().unwrap();
    assert!(md.owner == Some(bob()));
    assert!(md.operator.is_none());
    assert_eq!(c.log.len(), 2);
    match c.transfer_internal(&ctx(bob(), 3), &transfer_request(bob(), carol(), token)) {
        TransferResponse::err(TransferResponseDetails::Other(m)) => assert_eq!(m, "Unkown Error"),
        _ => panic!("expected other"),
    }
    match c.transfer_internal(&ctx(alice(), 3), &transfer_request(bob(), carol(), String::from("zzz"))) {
        TransferResponse::err(TransferResponseDetails::InvalidToken(t)) => assert_eq!(t, "zzz"),
        _ => panic!("expected invalid token"),
    }
    assert_eq!(c.ledger.tx_count(), 2);
}

#[test]
fn approve_reports_only_success() {
    let mut c = Canister::new(cid());
    c.mint_internal(&ctx(alice(), 1), &request(alice(), "H")).unwrap();
    let token = encode_token_id(&cid(), &TokenIndex(1));
    let req = |spender: Principal, token: String| ApproveRequest {
        allowance: 1,
        spender,
        subaccount: None,
        token,
    };
    assert!(!c.approve(&ctx(bob(), 2), &req(carol(), token.clone())));
    assert!(!c.approve(&ctx(alice(), 2), &req(alice(), token.clone())));
    assert!(c.approve(&ctx(alice(), 2), &req(bob(), token.clone())));
    assert!(dip721_token_metadata(&c.ledger, 1).ok().unwrap().operator == Some(bob()));
    let foreign = encode_token_id(&CanisterId(Principal::from_slice(&[9])), &TokenIndex(1));
    assert!(!c.approve(&ctx(alice(), 2), &req(carol(), foreign)));
    assert_eq!(c.ledger.tx_count(), 2);
}

#[test]
fn batch_transfer_moves_all() {
    let mut c = Canister::new(cid());
    c.batch_mint(&ctx(alice(), 1), &request(alice(), "H"), Some(3)).unwrap();
    let req = TransferRequestV2 { from: User::principal(alice()), to: User::principal(bob()), token_list: vec![1, 2, 3] };
    assert_eq!(c.batch_transfer_v2(&ctx(alice(), 2), &req), Ok(vec![3, 4, 5]));
    for t in 1..4u64 {
        assert!(dip721_token_metadata(&c.ledger, t).ok().unwrap().owner == Some(bob()));
        assert!(dip721_token_metadata(&c.ledger, t).ok().unwrap().operator.is_none());
    }
    let again = TransferRequestV2 { from: User::principal(bob()), to: User::principal(carol()), token_list: vec![1] };
    assert_eq!(c.batch_transfer_v2(&ctx(bob(), 3), &again), Err(NftError::OperatorNotFound));
    assert_eq!(c.log.len(), 6);
}

#[test]
fn batch_transfer_with_unowned_token_changes_nothing() {
    let mut c = Canister::new(cid());
    c.batch_mint(&ctx(alice(), 1), &request(alice(), "H"), Some(2)).unwrap();
    c.mint_internal(&ctx(alice(), 1), &request(carol(), "H")).unwrap();
    let req = TransferRequestV2 { from: User::principal(alice()), to: User::principal(bob()), token_list: vec![1, 2, 3] };
    assert_eq!(c.batch_transfer_v2(&ctx(alice(), 2), &req), Err(NftError::UnauthorizedOwner));
    assert!(dip721_token_metadata(&c.ledger, 1).ok().unwrap().owner == Some(alice()));
    assert!(dip721_token_metadata(&c.ledger, 2).ok().unwrap().owner == Some(alice()));
    assert!(dip721_token_metadata(&c.ledger, 3).ok().unwrap().owner == Some(carol()));
    assert_eq!(c.log.len(), 3);
    assert_eq!(c.ledger.tx_count(), 3);
}

#[test]
fn batch_transfer_checks_before_acting() {
    let mut c = Canister::new(cid());
    c.batch_mint(&ctx(alice(), 1), &request(alice(), "H"), Some(2)).unwrap();
    let dup = TransferRequestV2 { from: User::principal(alice()), to: User::principal(bob()), token_list: vec![1, 2, 1] };
    assert_eq!(c.batch_transfer_v2(&ctx(alice(), 2), &dup), Err(NftError::UnauthorizedOwner));
    let other = TransferRequestV2 { from: User::principal(alice()), to: User::principal(bob()), token_list: vec![1, 2] };
    assert_eq!(c.batch_transfer_v2(&ctx(carol(), 2), &other), Err(NftError::UnauthorizedOperator));
    let same = TransferRequestV2 { from: User::principal(alice()), to: User::principal(alice()), token_list: vec![1] };
    assert_eq!(c.batch_transfer_v2(&ctx(alice(), 2), &same), Err(NftError::UnauthorizedOwner));
    assert_eq!(c.log.len(), 2);
    assert!(dip721_token_metadata(&c.ledger, 1).ok().unwrap().owner == Some(alice()));
}

fn build_ledger() -> Ledger {
    let mut ledger = Ledger::new();
    let mut log = Vec::new();
    ledger.init_metadata(alice(), Some(InitArgs {
        name: Some(String::from("Elements")),
        logo: None,
        symbol: Some(String::from("EL")),
        custodians: Some(vec![bob(), alice()]),
        cap: None,
    }), 100);
    dip721_mint(&mut ledger, &ctx(alice(), 101), alice(), 1, vec![], &mut log).unwrap();
    dip721_mint(&mut ledger, &ctx(alice(), 102), alice(), 2, vec![], &mut log).unwrap();
    nft_ledger::dip721::dip721_transfer_from(&mut ledger, &ctx(alice(), 103), alice(), carol(), 2, &mut log).unwrap();
    ledger
}

#[test]
fn restore_keeps_everything_but_upgrade_time() {
    let mut c = Canister::new(cid());
    c.ledger = build_ledger();
    c.props = catalog();
    c.tid.next = 3;
    let state = c.pre_upgrade();
    assert_eq!(state.tid, 3);
    assert_eq!(state.ledger.tokens.len(), 2);
    assert_eq!(state.ledger.owners.len(), 2);
    assert_eq!(state.ledger.operators.len(), 1);
    let c = Canister::post_upgrade(cid(), state, 500).ok().unwrap();
    let reference = build_ledger();
    assert_eq!(c.ledger.tokens_count(), reference.tokens_count());
    assert_eq!(c.ledger.tx_count(), reference.tx_count());
    for t in 1..3u64 {
        let a = dip721_token_metadata(&c.ledger, t).ok().unwrap();
        let b = dip721_token_metadata(&reference, t).ok().unwrap();
        assert!(a.owner == b.owner);
        assert!(a.operator == b.operator);
        assert_eq!(a.minted_at, b.minted_at);
        assert_eq!(a.transferred_at, b.transferred_at);
        assert_eq!(a.token_identifier, b.token_identifier);
    }
    let m = c.ledger.metadata();
    assert_eq!(m.name, Some(String::from("Elements")));
    assert_eq!(m.symbol, Some(String::from("EL")));
    assert_eq!(m.custodians.len(), 2);
    assert_eq!(m.created_at, 100);
    assert_eq!(m.upgraded_at, 500);
    assert_eq!(reference.metadata().upgraded_at, 100);
    assert_eq!(c.ledger.owner_token_identifiers(&carol()), Ok(vec![2]));
    assert_eq!(c.ledger.owner_token_identifiers(&alice()), Ok(vec![1]));
    assert_eq!(c.tid.next, 3);
    assert_eq!(c.props.len(), 3);
}

#[test]
fn restored_ledger_keeps_working() {
    let mut c = Canister::new(cid());
    c.ledger = build_ledger();
    let mut c = Canister::post_upgrade(cid(), c.pre_upgrade(), 9).ok().unwrap();
    let mut log = Vec::new();
    assert_eq!(nft_ledger::dip721::dip721_approve(&mut c.ledger, &ctx(carol(), 10), bob(), 2, &mut log), Ok(3));
    assert_eq!(
        nft_ledger::dip721::dip721_transfer_from(&mut c.ledger, &ctx(bob(), 11), carol(), alice(), 2, &mut log),
        Ok(4)
    );
    assert_eq!(dip721_balance_of(&c.ledger, alice()), Ok(2));
    assert_eq!(dip721_mint(&mut c.ledger, &ctx(alice(), 10), alice(), 1, vec![], &mut log), Err(NftError::ExistedNFT));
}

fn record(id: u64, owner: Option<Principal>, burned: bool) -> nft_ledger::types::TokenMetaData {
    nft_ledger::types::TokenMetaData {
        token_identifier: id,
        owner,
        operator: owner,
        is_burned: burned,
        properties: vec![],
        minted_at: 1,
        minted_by: alice(),
        transferred_at: None,
        transferred_by: None,
        approved_at: None,
        approved_by: None,
        burned_at: None,
        burned_by: None,
    }
}

fn snapshot_of(tokens: Vec<nft_ledger::types::TokenMetaData>) -> nft_ledger::ledger::LedgerSnapshot {
    nft_ledger::ledger::LedgerSnapshot {
        metadata: Ledger::new().snapshot().metadata,
        tokens,
        owners: vec![],
        operators: vec![],
        tx_count: 4,
    }
}

#[test]
fn restore_rejects_bad_snapshots() {
    let dup = snapshot_of(vec![record(1, Some(alice()), false), record(1, Some(bob()), false)]);
    assert_eq!(Ledger::restore(dup, 1).err(), Some(RestoreError::DuplicateToken));
    let held = snapshot_of(vec![record(1, Some(alice()), true)]);
    assert_eq!(Ledger::restore(held, 1).err(), Some(RestoreError::BurnedTokenHeld));
    let both = snapshot_of(vec![record(5, Some(alice()), true), record(1, None, false), record(1, None, false)]);
    assert_eq!(Ledger::restore(both, 1).err(), Some(RestoreError::DuplicateToken));
    let mut twice = snapshot_of(vec![record(1, Some(alice()), false)]);
    twice.metadata.custodians = vec![alice(), bob(), alice()];
    assert_eq!(Ledger::restore(twice, 1).err(), Some(RestoreError::DuplicateCustodian));
    let mut held_and_twice = snapshot_of(vec![record(1, Some(alice()), true)]);
    held_and_twice.metadata.custodians = vec![alice(), alice()];
    assert_eq!(Ledger::restore(held_and_twice, 1).err(), Some(RestoreError::BurnedTokenHeld));
    let ok = snapshot_of(vec![record(1, Some(alice()), false), record(2, None, true)]);
    let l = Ledger::restore(ok, 1).ok().unwrap();
    assert_eq!(l.tx_count(), 4);
    assert_eq!(l.tokens_count(), 2);
    assert_eq!(dip721_balance_of(&l, alice()), Ok(1));
}

fn v1(from: Principal, to: Principal, class: &str, num: usize) -> nft_ledger::types::TransferRequestV1 {
    nft_ledger::types::TransferRequestV1 {
        from: User::principal(from),
        to: User::principal(to),
        class: String::from(class),
        num,
    }
}

#[test]
fn class_transfer_moves_tokens_of_that_class() {
    let mut c = Canister::new(cid());
    c.props = catalog();
    c.batch_mint(&ctx(alice(), 1), &request(alice(), "H"), Some(2)).unwrap();
    c.batch_mint(&ctx(alice(), 1), &request(alice(), "He"), Some(2)).unwrap();
    let r = c.batch_transfer_v1(&ctx(alice(), 2), &v1(alice(), bob(), "He", 2));
    assert_eq!(r, Ok(vec![4, 5]));
    assert!(dip721_token_metadata(&c.ledger, 3).ok().unwrap().owner == Some(bob()));
    assert!(dip721_token_metadata(&c.ledger, 4).ok().unwrap().owner == Some(bob()));
    assert!(dip721_token_metadata(&c.ledger, 1).ok().unwrap().owner == Some(alice()));
    assert!(dip721_token_metadata(&c.ledger, 2).ok().unwrap().owner == Some(alice()));
}

#[test]
fn class_transfer_needs_enough_tokens() {
    let mut c = Canister::new(cid());
    c.props = catalog();
    c.batch_mint(&ctx(alice(), 1), &request(alice(), "H"), Some(2)).unwrap();
    let r = c.batch_transfer_v1(&ctx(alice(), 2), &v1(alice(), bob(), "H", 3));
    assert_eq!(r, Err(NftError::TokenNotFound));
    assert_eq!(c.batch_transfer_v1(&ctx(alice(), 2), &v1(carol(), bob(), "H", 1)), Err(NftError::TokenNotFound));
    assert_eq!(c.ledger.tx_count(), 2);
    let r = c.batch_transfer_v1(&ctx(alice(), 2), &v1(alice(), bob(), "H", 1));
    assert_eq!(r.map(|v| v.len()), Ok(1));
}

#[test]
fn class_attribute_is_read_from_properties() {
    let mut ledger = Ledger::new();
    let mut log = Vec::new();
    let props = vec![
        (String::from("desc"), GeneralValue::TextContent(String::from("He"))),
        (String::from("class"), GeneralValue::TextContent(String::from("Li"))),
    ];
    dip721_mint(&mut ledger, &ctx(alice(), 1), alice(), 1, props, &mut log).unwrap();
    let md = dip721_token_metadata(&ledger, 1).ok().unwrap();
    assert!(nft_ledger::batch::record_has_class(md, &String::from("Li")));
    assert!(!nft_ledger::batch::record_has_class(md, &String::from("He")));
}

#[test]
fn metadata_by_text_and_by_index() {
    let mut c = Canister::new(cid());
    c.mint_internal(&ctx(alice(), 7), &request(alice(), "H")).unwrap();
    let token = encode_token_id(&cid(), &TokenIndex(1));
    assert_eq!(c.metadata(&token).unwrap().minted_at, 7);
    assert!(c.metadata(&encode_token_id(&cid(), &TokenIndex(2))).is_none());
    assert!(c.metadata(&String::from("garbage")).is_none());
    assert_eq!(c.get_token_metadata_by_u32(1).ok().unwrap().token_identifier, 1);
    match c.get_token_metadata_by_u32(9) {
        Err(nft_ledger::types::CommonError::InvalidToken(t)) => {
            assert_eq!(t, encode_token_id(&cid(), &TokenIndex(9)))
        },
        _ => panic!("expected invalid token"),
    }
}

#[test]
fn listed_and_owned_indexes() {
    let mut c = Canister::new(cid());
    assert!(c.listed_token_indexes().is_empty());
    c.batch_mint(&ctx(alice(), 1), &request(alice(), "H"), Some(3)).unwrap();
    dip721_mint(&mut c.ledger, &ctx(alice(), 1), bob(), 10, vec![], &mut c.log).unwrap();
    assert_eq!(c.listed_token_indexes(), vec![1, 2, 3]);
    let mut owned = c.owned_token_indexes(alice());
    owned.sort();
    assert_eq!(owned, vec![1, 2, 3]);
    assert_eq!(c.owned_token_indexes(bob()), vec![10]);
    assert!(c.owned_token_indexes(carol()).is_empty());
    dip721_mint(&mut c.ledger, &ctx(alice(), 1), bob(), 1 << 40, vec![], &mut c.log).unwrap();
    assert_eq!(c.owned_token_indexes(bob()), vec![10]);
    assert_eq!(c.listed_token_indexes(), vec![1, 2, 3]);
}
